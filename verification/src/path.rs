//! Lexical path handling: paths as sequences of segments, normalisation
//! without touching the file system, and the containment test of the sandbox.

use crate::error::FsError;
use vstd::prelude::*;
use vstd::string::*;

verus! {

/// One segment of a path, in the order in which it is written.
#[derive(Debug)]
pub enum Segment {
    /// A volume or drive designator that precedes the root (`C:`).
    Prefix(String),
    /// The root directory.
    RootDir,
    /// `.`
    CurDir,
    /// `..`
    ParentDir,
    /// A directory or file name.
    Normal(String),
}

/// The mathematical value of a [`Segment`]: names are character sequences.
pub enum SegmentView {
    Prefix(Seq<char>),
    RootDir,
    CurDir,
    ParentDir,
    Normal(Seq<char>),
}

impl View for Segment {
    type V = SegmentView;

    open spec fn view(&self) -> SegmentView {
        match self {
            Segment::Prefix(p) => SegmentView::Prefix(p@),
            Segment::RootDir => SegmentView::RootDir,
            Segment::CurDir => SegmentView::CurDir,
            Segment::ParentDir => SegmentView::ParentDir,
            Segment::Normal(n) => SegmentView::Normal(n@),
        }
    }
}

/// The mathematical value of a path held as a vector of segments.
pub open spec fn path_view(p: Seq<Segment>) -> Seq<SegmentView> {
    Seq::new(p.len(), |i: int| p[i]@)
}

/// What one more segment does to an already normalised path.
///
/// A prefix starts the path over. A root keeps only a leading prefix. `.` is
/// dropped. `..` removes the last name and does nothing when there is none to
/// remove, so it never climbs above the anchor. A name is appended.
pub open spec fn step(acc: Seq<SegmentView>, c: SegmentView) -> Seq<SegmentView> {
    match c {
        SegmentView::Prefix(_) => seq![c],
        SegmentView::RootDir => if acc.len() > 0 && acc[0] is Prefix {
            seq![acc[0], SegmentView::RootDir]
        } else {
            seq![SegmentView::RootDir]
        },
        SegmentView::CurDir => acc,
        SegmentView::ParentDir => if acc.len() > 0 && acc.last() is Normal {
            acc.drop_last()
        } else {
            acc
        },
        SegmentView::Normal(_) => acc.push(c),
    }
}

/// The segments of `p` applied in order to the normalised path `acc`.
pub open spec fn apply(acc: Seq<SegmentView>, p: Seq<SegmentView>) -> Seq<SegmentView>
    decreases p.len(),
{
    if p.len() == 0 {
        acc
    } else {
        step(apply(acc, p.drop_last()), p.last())
    }
}

/// The lexical normal form of a path.
pub open spec fn normalize(p: Seq<SegmentView>) -> Seq<SegmentView> {
    apply(Seq::empty(), p)
}

/// A path in normal form: an optional prefix, an optional root, then names only.
pub open spec fn is_normal_form(p: Seq<SegmentView>) -> bool {
    forall|i: int|
        0 <= i < p.len() ==> match #[trigger] p[i] {
            SegmentView::Prefix(_) => i == 0,
            SegmentView::RootDir => i == 0 || (i == 1 && p[0] is Prefix),
            SegmentView::CurDir => false,
            SegmentView::ParentDir => false,
            SegmentView::Normal(_) => true,
        }
}

/// A copy of a segment.
pub fn clone_segment(s: &Segment) -> (r: Segment)
    ensures
        r@ == s@,
{
    match s {
        Segment::Prefix(p) => Segment::Prefix(p.clone()),
        Segment::RootDir => Segment::RootDir,
        Segment::CurDir => Segment::CurDir,
        Segment::ParentDir => Segment::ParentDir,
        Segment::Normal(n) => Segment::Normal(n.clone()),
    }
}

/// Applies the segments of `path` to the normalised path `acc`.
pub fn normalize_onto(acc: Vec<Segment>, path: &Vec<Segment>) -> (ret: Vec<Segment>)
    ensures
        path_view(ret@) == apply(path_view(acc@), path_view(path@)),
{
    let mut ret = acc;
    let mut i: usize = 0;
    while i < path.len()
        invariant
            i <= path.len(),
            path_view(ret@) == apply(path_view(acc@), path_view(path@).take(i as int)),
        decreases path.len() - i,
    {
        proof {
            let whole = path_view(path@);
            assert(whole.take(i + 1).drop_last() == whole.take(i as int));
            assert(whole.take(i + 1).last() == path@[i as int]@);
        }
        let ghost before = path_view(ret@);
        match &path[i] {
            Segment::Prefix(p) => {
                ret.clear();
                ret.push(Segment::Prefix(p.clone()));
            },
            Segment::RootDir => {
                let keep = ret.len() > 0 && matches!(ret[0], Segment::Prefix(_));
                if keep {
                    ret.truncate(1);
                } else {
                    ret.clear();
                }
                ret.push(Segment::RootDir);
            },
            Segment::CurDir => {},
            Segment::ParentDir => {
                let n = ret.len();
                if n > 0 && matches!(ret[n - 1], Segment::Normal(_)) {
                    ret.pop();
                }
            },
            Segment::Normal(n) => {
                ret.push(Segment::Normal(n.clone()));
            },
        }
        assert(path_view(ret@) == step(before, path@[i as int]@));
        i += 1;
    }
    assert(path_view(path@).take(path@.len() as int) == path_view(path@));
    ret
}

/// Resolves a path lexically, without consulting the file system: `.` is
/// dropped, `..` removes the name before it and never climbs above the anchor,
/// and a leading prefix or root stays in place.
pub fn normalize_path(path: &Vec<Segment>) -> (ret: Vec<Segment>)
    ensures
        path_view(ret@) == normalize(path_view(path@)),
{
    let start: Vec<Segment> = Vec::new();
    assert(path_view(start@) =~= Seq::<SegmentView>::empty());
    normalize_onto(start, path)
}

/// A copy of a path.
pub fn clone_path(path: &Vec<Segment>) -> (ret: Vec<Segment>)
    ensures
        path_view(ret@) == path_view(path@),
{
    let mut ret: Vec<Segment> = Vec::new();
    let mut i: usize = 0;
    while i < path.len()
        invariant
            i <= path.len(),
            ret@.len() == i,
            forall|j: int| 0 <= j < i ==> ret@[j]@ == path@[j]@,
        decreases path.len() - i,
    {
        ret.push(clone_segment(&path[i]));
        i += 1;
    }
    assert(path_view(ret@) =~= path_view(path@));
    ret
}

/// Whether two segments are the same.
pub fn segment_eq(a: &Segment, b: &Segment) -> (r: bool)
    ensures
        r == (a@ == b@),
{
    match (a, b) {
        (Segment::Prefix(x), Segment::Prefix(y)) => *x == *y,
        (Segment::RootDir, Segment::RootDir) => true,
        (Segment::CurDir, Segment::CurDir) => true,
        (Segment::ParentDir, Segment::ParentDir) => true,
        (Segment::Normal(x), Segment::Normal(y)) => *x == *y,
        _ => false,
    }
}

/// Whether `path` begins with all the segments of `base`, compared segment by
/// segment: `/root-evil` does not start with `/root`.
pub fn starts_with(path: &Vec<Segment>, base: &Vec<Segment>) -> (r: bool)
    ensures
        r == path_view(base@).is_prefix_of(path_view(path@)),
{
    if base.len() > path.len() {
        return false;
    }
    let mut i: usize = 0;
    while i < base.len()
        invariant
            i <= base.len() <= path.len(),
            forall|j: int| 0 <= j < i ==> base@[j]@ == path@[j]@,
        decreases base.len() - i,
    {
        if !segment_eq(&base[i], &path[i]) {
            proof {
                let b = path_view(base@);
                let p = path_view(path@);
                assert(b[i as int] != p.subrange(0, b.len() as int)[i as int]);
            }
            return false;
        }
        i += 1;
    }
    assert(path_view(base@) =~= path_view(path@).subrange(0, base@.len() as int));
    true
}

/// The path that `target` names when it is given relative to `root`, in normal
/// form. A target that begins with a prefix or, under a root without prefix,
/// with the root directory, replaces `root` altogether.
pub open spec fn resolve(root: Seq<SegmentView>, target: Seq<SegmentView>) -> Seq<SegmentView> {
    normalize(root + target)
}

/// Whether `target`, resolved against `root`, stays inside `root`.
pub open spec fn is_inside(root: Seq<SegmentView>, target: Seq<SegmentView>) -> bool {
    normalize(root).is_prefix_of(resolve(root, target))
}

/// Applying one path after another is applying their concatenation.
pub proof fn lemma_apply_concat(acc: Seq<SegmentView>, a: Seq<SegmentView>, b: Seq<SegmentView>)
    ensures
        apply(acc, a + b) == apply(apply(acc, a), b),
    decreases b.len(),
{
    if b.len() == 0 {
        assert(a + b =~= a);
    } else {
        assert((a + b).drop_last() =~= a + b.drop_last());
        assert((a + b).last() == b.last());
        lemma_apply_concat(acc, a, b.drop_last());
    }
}

/// Checks that `target`, taken relative to `root`, names a place inside
/// `root`, and returns that place in normal form. Both paths are normalised
/// on every call; nothing is remembered between calls.
pub fn validate(root: &Vec<Segment>, target: &Vec<Segment>) -> (r: Result<Vec<Segment>, FsError>)
    ensures
        r is Ok <==> is_inside(path_view(root@), path_view(target@)),
        r matches Ok(p) ==> path_view(p@) == resolve(path_view(root@), path_view(target@)),
        r matches Err(e) ==> (e matches FsError::AccessDenied(p) && path_view(p@) == resolve(
            path_view(root@),
            path_view(target@),
        )),
{
    let clean_root = normalize_path(root);
    let clean_path = normalize_onto(clone_path(&clean_root), target);
    proof {
        lemma_apply_concat(Seq::empty(), path_view(root@), path_view(target@));
    }
    if starts_with(&clean_path, &clean_root) {
        Ok(clean_path)
    } else {
        Err(FsError::AccessDenied(clean_path))
    }
}

/// Applying segments to a path in normal form gives a path in normal form.
pub proof fn lemma_apply_keeps_normal_form(acc: Seq<SegmentView>, p: Seq<SegmentView>)
    requires
        is_normal_form(acc),
    ensures
        is_normal_form(apply(acc, p)),
    decreases p.len(),
{
    if p.len() > 0 {
        lemma_apply_keeps_normal_form(acc, p.drop_last());
    }
}

/// The normal form of any path is in normal form.
pub proof fn lemma_normalize_gives_normal_form(p: Seq<SegmentView>)
    ensures
        is_normal_form(normalize(p)),
{
    lemma_apply_keeps_normal_form(Seq::empty(), p);
}

/// A path in normal form is its own normal form.
pub proof fn lemma_normal_form_is_fixed(p: Seq<SegmentView>)
    requires
        is_normal_form(p),
    ensures
        normalize(p) == p,
    decreases p.len(),
{
    if p.len() > 0 {
        let front = p.drop_last();
        assert(is_normal_form(front)) by {
            assert forall|i: int| 0 <= i < front.len() implies match #[trigger] front[i] {
                SegmentView::Prefix(_) => i == 0,
                SegmentView::RootDir => i == 0 || (i == 1 && front[0] is Prefix),
                SegmentView::CurDir => false,
                SegmentView::ParentDir => false,
                SegmentView::Normal(_) => true,
            } by {
                assert(front[i] == p[i]);
            }
        }
        lemma_normal_form_is_fixed(front);
        let last = p[p.len() - 1];
        assert(step(front, last) =~= p);
    } else {
        assert(p =~= Seq::empty());
    }
}

/// Normalising twice changes nothing more.
pub proof fn normalize_is_idempotent(p: Seq<SegmentView>)
    ensures
        normalize(normalize(p)) == normalize(p),
{
    lemma_normalize_gives_normal_form(p);
    lemma_normal_form_is_fixed(normalize(p));
}

/// A name followed by `..` cancels out: below any path, `a/../b` and `b` have
/// the same normal form.
pub proof fn normalize_cancels_parent(root: Seq<SegmentView>, a: Seq<char>, b: Seq<char>)
    ensures
        normalize(
            root + seq![SegmentView::Normal(a), SegmentView::ParentDir, SegmentView::Normal(b)],
        ) == normalize(root + seq![SegmentView::Normal(b)]),
{
    let long = seq![SegmentView::Normal(a), SegmentView::ParentDir, SegmentView::Normal(b)];
    let short = seq![SegmentView::Normal(b)];
    let base = normalize(root);
    lemma_apply_concat(Seq::empty(), root, long);
    lemma_apply_concat(Seq::empty(), root, short);
    assert(long.drop_last() =~= seq![SegmentView::Normal(a), SegmentView::ParentDir]);
    assert(long.drop_last().drop_last() =~= seq![SegmentView::Normal(a)]);
    assert(long.drop_last().drop_last().drop_last() =~= Seq::<SegmentView>::empty());
    assert(short.drop_last() =~= Seq::<SegmentView>::empty());
    reveal_with_fuel(apply, 4);
    assert(apply(base, long.drop_last().drop_last()) == base.push(SegmentView::Normal(a)));
    assert(base.push(SegmentView::Normal(a)).drop_last() =~= base);
    assert(apply(base, long.drop_last()) == base);
}

/// By how much a segment changes the depth of a relative path.
pub open spec fn depth_change(c: SegmentView) -> int {
    match c {
        SegmentView::Normal(_) => 1,
        SegmentView::ParentDir => -1,
        _ => 0,
    }
}

/// The number of names in a relative path less the number of `..` in it.
pub open spec fn net_depth(p: Seq<SegmentView>) -> int
    decreases p.len(),
{
    if p.len() == 0 {
        0
    } else {
        net_depth(p.drop_last()) + depth_change(p.last())
    }
}

/// A relative path that never climbs above the place where it starts: it has
/// no prefix and no root, and none of its beginnings holds more `..` than names.
pub open spec fn is_lexically_inside(p: Seq<SegmentView>) -> bool {
    &&& forall|i: int| 0 <= i < p.len() ==> !(#[trigger] p[i] is Prefix) && !(p[i] is RootDir)
    &&& forall|k: int| 0 <= k <= p.len() ==> net_depth(#[trigger] p.take(k)) >= 0
}

/// A path made of names only.
pub open spec fn is_names_only(p: Seq<SegmentView>) -> bool {
    forall|i: int| 0 <= i < p.len() ==> #[trigger] p[i] is Normal
}

/// A path that stays inside is resolved on its own and then appended.
pub proof fn lemma_inside_path_appends(acc: Seq<SegmentView>, p: Seq<SegmentView>)
    requires
        is_lexically_inside(p),
    ensures
        apply(acc, p) == acc + normalize(p),
        is_names_only(normalize(p)),
        normalize(p).len() == net_depth(p),
    decreases p.len(),
{
    if p.len() == 0 {
        assert(acc + normalize(p) =~= acc);
    } else {
        let front = p.drop_last();
        let last = p.last();
        assert(is_lexically_inside(front)) by {
            assert forall|i: int| 0 <= i < front.len() implies !(#[trigger] front[i] is Prefix)
                && !(front[i] is RootDir) by {
                assert(front[i] == p[i]);
            }
            assert forall|k: int| 0 <= k <= front.len() implies net_depth(
                #[trigger] front.take(k),
            ) >= 0 by {
                assert(front.take(k) =~= p.take(k));
            }
        }
        lemma_inside_path_appends(acc, front);
        lemma_inside_path_appends(Seq::empty(), front);
        let inner = normalize(front);
        assert(Seq::<SegmentView>::empty() + inner =~= inner);
        assert(p.take(p.len() as int) =~= p);
        assert(last == p[p.len() - 1]);
        match last {
            SegmentView::Normal(_) => {
                assert((acc + inner).push(last) =~= acc + inner.push(last));
            },
            SegmentView::ParentDir => {
                assert(inner.len() >= 1);
                assert(inner[inner.len() - 1] is Normal);
                assert((acc + inner).last() == inner.last());
                assert((acc + inner).drop_last() =~= acc + inner.drop_last());
            },
            _ => {},
        }
    }
}

/// Every target that stays lexically inside is accepted under every root, and
/// the place it resolves to, normalised again, still begins with the
/// normalised root.
pub proof fn inside_is_accepted(root: Seq<SegmentView>, target: Seq<SegmentView>)
    requires
        is_lexically_inside(target),
    ensures
        is_inside(root, target),
        normalize(root).is_prefix_of(normalize(resolve(root, target))),
        resolve(root, target) == normalize(root) + normalize(target),
{
    let base = normalize(root);
    lemma_apply_concat(Seq::empty(), root, target);
    lemma_inside_path_appends(base, target);
    assert((base + normalize(target)).subrange(0, base.len() as int) =~= base);
    normalize_is_idempotent(root + target);
}

/// The number of leading segments of a path in normal form that are not names.
pub open spec fn anchor_len(p: Seq<SegmentView>) -> int {
    if p.len() > 0 && p[0] is Prefix {
        if p.len() > 1 && p[1] is RootDir {
            2
        } else {
            1
        }
    } else if p.len() > 0 && p[0] is RootDir {
        1
    } else {
        0
    }
}

/// The names of a path in normal form, without its anchor.
pub open spec fn names_of(p: Seq<SegmentView>) -> Seq<SegmentView> {
    p.subrange(anchor_len(p), p.len() as int)
}

/// The classic attempt to break out: `../../../etc/passwd`.
pub open spec fn escape_attempt() -> Seq<SegmentView> {
    seq![
        SegmentView::ParentDir,
        SegmentView::ParentDir,
        SegmentView::ParentDir,
        SegmentView::Normal("etc"@),
        SegmentView::Normal("passwd"@),
    ]
}

/// `../../../etc/passwd` is denied under every root but those it cannot leave:
/// a root without names, the root `etc`, and the root `etc/passwd` (each below
/// any anchor). Under a root of three names or more it is always denied.
pub proof fn escape_is_denied(root: Seq<SegmentView>)
    ensures
        is_inside(root, escape_attempt()) <==> names_of(normalize(root)).is_prefix_of(
            seq![SegmentView::Normal("etc"@), SegmentView::Normal("passwd"@)],
        ),
        names_of(normalize(root)).len() >= 3 ==> !is_inside(root, escape_attempt()),
{
    let n = normalize(root);
    let t = escape_attempt();
    let etc = SegmentView::Normal("etc"@);
    let passwd = SegmentView::Normal("passwd"@);
    let goal = seq![etc, passwd];
    let up = SegmentView::ParentDir;
    lemma_normalize_gives_normal_form(root);
    lemma_apply_concat(Seq::empty(), root, t);
    let t4 = t.drop_last();
    let t3 = t4.drop_last();
    let t2 = t3.drop_last();
    let t1 = t2.drop_last();
    assert(t1.drop_last() =~= Seq::<SegmentView>::empty());
    reveal_with_fuel(apply, 6);
    let n1 = step(n, up);
    let n2 = step(n1, up);
    let n3 = step(n2, up);
    assert(apply(n, t1) == n1);
    assert(apply(n, t2) == n2);
    assert(apply(n, t3) == n3);
    assert(apply(n, t) == n3.push(etc).push(passwd));
    let out = n3.push(etc).push(passwd);
    let a = anchor_len(n);
    let names = names_of(n);
    assert forall|i: int| a <= i < n.len() implies #[trigger] n[i] is Normal by {}
    assert forall|i: int| 0 <= i < a implies !(#[trigger] n[i] is Normal) by {}
    let k = n.len() - a;
    if k == 0 {
        assert(n3 == n);
        assert(out.subrange(0, n.len() as int) =~= n);
        assert(names =~= goal.subrange(0, 0));
    } else if k == 1 {
        assert(n1 =~= n.subrange(0, a));
        assert(n3 == n1);
        assert(names[0] == n[a]);
        if n.is_prefix_of(out) {
            assert(out.subrange(0, n.len() as int)[a] == n[a]);
            assert(names =~= goal.subrange(0, 1));
        }
        if names.is_prefix_of(goal) {
            assert(goal.subrange(0, 1)[0] == names[0]);
            assert(out.subrange(0, n.len() as int) =~= n);
        }
    } else if k == 2 {
        assert(n1 =~= n.subrange(0, a + 1));
        assert(n2 =~= n.subrange(0, a));
        assert(n3 == n2);
        assert(names[0] == n[a]);
        assert(names[1] == n[a + 1]);
        if n.is_prefix_of(out) {
            assert(out.subrange(0, n.len() as int)[a] == n[a]);
            assert(out.subrange(0, n.len() as int)[a + 1] == n[a + 1]);
            assert(names =~= goal.subrange(0, 2));
        }
        if names.is_prefix_of(goal) {
            assert(goal.subrange(0, 2)[0] == names[0]);
            assert(goal.subrange(0, 2)[1] == names[1]);
            assert(out.subrange(0, n.len() as int) =~= n);
        }
    } else {
        assert(n1 =~= n.subrange(0, n.len() - 1));
        assert(n2 =~= n.subrange(0, n.len() - 2));
        assert(n3 =~= n.subrange(0, n.len() - 3));
        assert(out.len() == n.len() - 1);
    }
}

/// The text of a segment on its own.
pub open spec fn segment_text(c: SegmentView) -> Seq<char> {
    match c {
        SegmentView::Prefix(t) => t,
        SegmentView::RootDir => seq!['/'],
        SegmentView::CurDir => seq!['.'],
        SegmentView::ParentDir => seq!['.', '.'],
        SegmentView::Normal(t) => t,
    }
}

/// Whether a `/` is written between two segments that follow each other:
/// always, but after a prefix or the root and before the root.
pub open spec fn needs_separator(before: SegmentView, c: SegmentView) -> bool {
    !(before is Prefix) && !(before is RootDir) && !(c is Prefix) && !(c is RootDir)
}

/// The text of a path, with `/` between its segments whatever the platform.
pub open spec fn render_spec(p: Seq<SegmentView>) -> Seq<char>
    decreases p.len(),
{
    if p.len() == 0 {
        Seq::empty()
    } else {
        let front = p.drop_last();
        if front.len() > 0 && needs_separator(front.last(), p.last()) {
            render_spec(front) + seq!['/'] + segment_text(p.last())
        } else {
            render_spec(front) + segment_text(p.last())
        }
    }
}

/// Whether a segment is a prefix or the root.
pub fn is_anchor(s: &Segment) -> (r: bool)
    ensures
        r == (s@ is Prefix || s@ is RootDir),
{
    matches!(s, Segment::Prefix(_) | Segment::RootDir)
}

/// Writes a path as text, with `/` between its segments.
pub fn render(path: &Vec<Segment>) -> (ret: String)
    ensures
        ret@ == render_spec(path_view(path@)),
{
    let mut ret = String::new();
    let mut i: usize = 0;
    proof {
        reveal_strlit("/");
        reveal_strlit(".");
        reveal_strlit("..");
        assert(path_view(path@).take(0) =~= Seq::<SegmentView>::empty());
    }
    while i < path.len()
        invariant
            i <= path.len(),
            ret@ == render_spec(path_view(path@).take(i as int)),
            "/"@ == seq!['/'],
            "."@ == seq!['.'],
            ".."@ == seq!['.', '.'],
        decreases path.len() - i,
    {
        proof {
            let whole = path_view(path@);
            assert(whole.take(i + 1).drop_last() == whole.take(i as int));
            assert(whole.take(i + 1).last() == path@[i as int]@);
            if i > 0 {
                assert(whole.take(i as int).last() == path@[i - 1]@);
            }
        }
        if i > 0 && !is_anchor(&path[i - 1]) && !is_anchor(&path[i]) {
            ret.append("/");
        }
        match &path[i] {
            Segment::Prefix(t) => {
                ret.append(t.as_str());
            },
            Segment::RootDir => {
                ret.append("/");
            },
            Segment::CurDir => {
                ret.append(".");
            },
            Segment::ParentDir => {
                ret.append("..");
            },
            Segment::Normal(t) => {
                ret.append(t.as_str());
            },
        }
        i += 1;
    }
    assert(path_view(path@).take(path@.len() as int) == path_view(path@));
    ret
}

/// `std::path::Path::components`: the segments of a path as the platform
/// reads it. Nothing is claimed of the result: what a text splits into differs
/// from platform to platform, and the functions above accept every sequence
/// of segments.
#[verifier::external_body]
pub(crate) fn split_path(path: &str) -> (ret: Vec<Segment>) {
    std::path::Path::new(path).components().map(
        |c| match c {
            std::path::Component::Prefix(p) => Segment::Prefix(
                p.as_os_str().to_string_lossy().into_owned(),
            ),
            std::path::Component::RootDir => Segment::RootDir,
            std::path::Component::CurDir => Segment::CurDir,
            std::path::Component::ParentDir => Segment::ParentDir,
            std::path::Component::Normal(n) => Segment::Normal(n.to_string_lossy().into_owned()),
        },
    ).collect()
}

/// `path` as seen from `base`: what follows `base` when `path` begins with
/// it, and `path` itself when it does not.
pub open spec fn relative_spec(path: Seq<SegmentView>, base: Seq<SegmentView>) -> Seq<SegmentView> {
    if base.is_prefix_of(path) {
        path.skip(base.len() as int)
    } else {
        path
    }
}

/// A path as seen from a base.
pub fn relative_to(path: &Vec<Segment>, base: &Vec<Segment>) -> (r: Vec<Segment>)
    ensures
        path_view(r@) == relative_spec(path_view(path@), path_view(base@)),
{
    if !starts_with(path, base) {
        return clone_path(path);
    }
    let mut r: Vec<Segment> = Vec::new();
    let mut i: usize = base.len();
    while i < path.len()
        invariant
            base.len() <= i <= path.len(),
            r@.len() == i - base.len(),
            forall|j: int| 0 <= j < r@.len() ==> r@[j]@ == path@[base.len() + j]@,
        decreases path.len() - i,
    {
        r.push(clone_segment(&path[i]));
        i += 1;
    }
    assert(path_view(r@) =~= path_view(path@).skip(base@.len() as int));
    r
}

/// The text of a path as seen from a root, both read as the platform reads
/// paths, with forward slashes: the form in which a search matches paths.
/// What the two texts split into is the platform's business, so nothing is
/// stated of the result here; [`relative_to`] and [`render`] say exactly what
/// becomes of the segments.
pub fn relative_path(root: &str, path: &str) -> String {
    let p = split_path(path);
    let b = split_path(root);
    let rel = relative_to(&p, &b);
    render(&rel)
}

/// A path that begins with a prefix starts over, whatever came before it; so
/// does a path that begins with the root when no prefix came before it.
pub proof fn lemma_anchor_starts_over(acc: Seq<SegmentView>, p: Seq<SegmentView>)
    requires
        p.len() > 0,
        p[0] is Prefix || (p[0] is RootDir && !(acc.len() > 0 && acc[0] is Prefix)),
    ensures
        apply(acc, p) == normalize(p),
    decreases p.len(),
{
    if p.len() == 1 {
        assert(p.drop_last() =~= Seq::<SegmentView>::empty());
        assert(apply(acc, p.drop_last()) == acc);
        assert(apply(Seq::empty(), p.drop_last()) == Seq::<SegmentView>::empty());
    } else {
        assert(p.drop_last()[0] == p[0]);
        lemma_anchor_starts_over(acc, p.drop_last());
    }
}

/// An absolute target is taken as it is: the root plays no part in what it
/// resolves to. This holds of a target that begins with a prefix, and of one
/// that begins with the root directory under a root without prefix.
pub proof fn absolute_target_is_taken_as_is(root: Seq<SegmentView>, target: Seq<SegmentView>)
    requires
        target.len() > 0,
        target[0] is Prefix || (target[0] is RootDir && !(normalize(root).len() > 0 && normalize(
            root,
        )[0] is Prefix)),
    ensures
        resolve(root, target) == normalize(target),
{
    lemma_apply_concat(Seq::empty(), root, target);
    lemma_anchor_starts_over(normalize(root), target);
}

} // verus!
