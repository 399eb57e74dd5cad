use zyma::error::FsError;
use zyma::path::{
    normalize_path, relative_path, relative_to, render, starts_with, validate, Segment,
};
use zyma::vfs::LocalFileSystem;

fn name(s: &str) -> Segment {
    Segment::Normal(s.to_string())
}

fn shown(path: &Vec<Segment>) -> String {
    render(path)
}

#[test]
fn normalize_drops_dot_and_resolves_dot_dot() {
    let path = vec![
        Segment::RootDir,
        name("a"),
        Segment::CurDir,
        name("b"),
        Segment::ParentDir,
        name("c"),
    ];
    assert_eq!(shown(&normalize_path(&path)), "/a/c");
}

#[test]
fn normalize_never_climbs_above_the_root() {
    let path = vec![Segment::RootDir, Segment::ParentDir, Segment::ParentDir, name("x")];
    assert_eq!(shown(&normalize_path(&path)), "/x");
}

#[test]
fn normalize_drops_leading_dot_dot_of_a_relative_path() {
    let path = vec![Segment::ParentDir, name("x")];
    assert_eq!(shown(&normalize_path(&path)), "x");
}

#[test]
fn normalize_keeps_prefix_and_root() {
    let path = vec![
        Segment::Prefix("C:".to_string()),
        Segment::RootDir,
        name("a"),
        Segment::ParentDir,
        Segment::ParentDir,
        name("b"),
    ];
    assert_eq!(shown(&normalize_path(&path)), "C:/b");
}

#[test]
fn name_then_parent_cancels() {
    let long = vec![Segment::RootDir, name("ws"), name("a"), Segment::ParentDir, name("b")];
    let short = vec![Segment::RootDir, name("ws"), name("b")];
    assert_eq!(shown(&normalize_path(&long)), shown(&normalize_path(&short)));
    assert_eq!(shown(&normalize_path(&long)), "/ws/b");
}

#[test]
fn normalize_twice_is_normalize_once() {
    let path = vec![Segment::RootDir, name("a"), Segment::ParentDir, Segment::CurDir, name("b")];
    let once = normalize_path(&path);
    let twice = normalize_path(&once);
    assert_eq!(shown(&once), shown(&twice));
}

#[test]
fn starts_with_compares_whole_segments() {
    let root = vec![Segment::RootDir, name("root")];
    let evil = vec![Segment::RootDir, name("root-evil"), name("x")];
    let good = vec![Segment::RootDir, name("root"), name("x")];
    assert!(!starts_with(&evil, &root));
    assert!(starts_with(&good, &root));
    assert!(starts_with(&root, &root));
    assert!(!starts_with(&root, &good));
}

#[test]
fn validate_accepts_a_path_inside() {
    let root = vec![Segment::RootDir, name("home"), name("u"), name("ws")];
    let target = vec![name("src"), Segment::CurDir, name("main.rs")];
    match validate(&root, &target) {
        Ok(p) => assert_eq!(shown(&p), "/home/u/ws/src/main.rs"),
        Err(_) => panic!("a path inside the root was refused"),
    }
}

#[test]
fn validate_denies_the_escape() {
    let root = vec![Segment::RootDir, name("home"), name("u"), name("ws")];
    let target = vec![
        Segment::ParentDir,
        Segment::ParentDir,
        Segment::ParentDir,
        name("etc"),
        name("passwd"),
    ];
    match validate(&root, &target) {
        Err(FsError::AccessDenied(p)) => assert_eq!(shown(&p), "/etc/passwd"),
        _ => panic!("the escape was not denied"),
    }
}

#[test]
fn validate_lets_the_escape_stay_where_it_cannot_leave() {
    let target = vec![
        Segment::ParentDir,
        Segment::ParentDir,
        Segment::ParentDir,
        name("etc"),
        name("passwd"),
    ];
    let slash = vec![Segment::RootDir];
    assert!(validate(&slash, &target).is_ok());
    let etc = vec![Segment::RootDir, name("etc")];
    assert!(validate(&etc, &target).is_ok());
    let other = vec![Segment::RootDir, name("var")];
    assert!(validate(&other, &target).is_err());
}

#[test]
fn validate_takes_an_absolute_target_as_it_is() {
    let root = vec![Segment::RootDir, name("ws")];
    let inside = vec![Segment::RootDir, name("ws"), name("a")];
    let outside = vec![Segment::RootDir, name("tmp"), name("a")];
    match validate(&root, &inside) {
        Ok(p) => assert_eq!(shown(&p), "/ws/a"),
        Err(_) => panic!("an absolute path inside the root was refused"),
    }
    match validate(&root, &outside) {
        Err(FsError::AccessDenied(p)) => assert_eq!(shown(&p), "/tmp/a"),
        _ => panic!("an absolute path outside the root was let through"),
    }
}

#[test]
fn validate_denies_a_sibling_with_the_root_as_its_beginning() {
    let root = vec![Segment::RootDir, name("root")];
    let target = vec![Segment::ParentDir, name("root-evil"), name("x")];
    assert!(matches!(validate(&root, &target), Err(FsError::AccessDenied(_))));
}

#[test]
fn local_file_system_reports_its_root() {
    let fs = LocalFileSystem::new("/home/u/../u/ws/.".to_string()).unwrap();
    assert_eq!(fs.get_cwd(), "/home/u/ws");
}

#[test]
fn local_file_system_validates_text_paths() {
    let fs = LocalFileSystem::new("/home/u/ws".to_string()).unwrap();
    match fs.validate_path("src/../Cargo.toml") {
        Ok(p) => assert_eq!(shown(&p), "/home/u/ws/Cargo.toml"),
        Err(_) => panic!("a path inside the root was refused"),
    }
    assert!(matches!(fs.validate_path("../../../etc/passwd"), Err(FsError::AccessDenied(_))));
    assert!(matches!(fs.validate_path("/etc/passwd"), Err(FsError::AccessDenied(_))));
    assert!(fs.validate_path("/home/u/ws/a/b").is_ok());
    assert!(matches!(fs.validate_path("/home/u/ws-evil/a"), Err(FsError::AccessDenied(_))));
}

#[test]
fn set_cwd_replaces_the_root() {
    let mut fs = LocalFileSystem::new("/one".to_string()).unwrap();
    assert!(fs.validate_path("/two/a").is_err());
    assert!(fs.set_cwd("/two/x/..").is_ok());
    assert_eq!(fs.get_cwd(), "/two");
    assert!(fs.validate_path("/two/a").is_ok());
    assert!(fs.validate_path("/one/a").is_err());
}

#[test]
fn set_cwd_refuses_a_relative_root() {
    let mut fs = LocalFileSystem::new("/one".to_string()).unwrap();
    match fs.set_cwd("some/where") {
        Err(FsError::AccessDenied(p)) => assert_eq!(shown(&p), "some/where"),
        _ => panic!("a relative root was accepted"),
    }
    assert_eq!(fs.get_cwd(), "/one");
}

#[test]
fn relative_to_strips_the_base() {
    let base = vec![Segment::RootDir, name("ws")];
    let inside = vec![Segment::RootDir, name("ws"), name("src"), name("a.rs")];
    let outside = vec![Segment::RootDir, name("tmp"), name("a.rs")];
    assert_eq!(shown(&relative_to(&inside, &base)), "src/a.rs");
    assert_eq!(shown(&relative_to(&outside, &base)), "/tmp/a.rs");
    assert_eq!(shown(&relative_to(&base, &base)), "");
}

#[test]
fn relative_path_reads_text() {
    assert_eq!(relative_path("/ws", "/ws/src/a.rs"), "src/a.rs");
    assert_eq!(relative_path("/ws", "/ws-evil/a.rs"), "/ws-evil/a.rs");
    assert_eq!(relative_path("/ws/", "/ws//src/./a.rs"), "src/a.rs");
}

#[test]
fn render_writes_slashes_between_segments() {
    let path = vec![name("a"), Segment::ParentDir, Segment::CurDir, name("b")];
    assert_eq!(shown(&path), "a/.././b");
    let anchored = vec![Segment::Prefix("C:".to_string()), Segment::RootDir, name("a")];
    assert_eq!(shown(&anchored), "C:/a");
    let drive_relative = vec![Segment::Prefix("C:".to_string()), name("a"), name("b")];
    assert_eq!(shown(&drive_relative), "C:a/b");
    assert_eq!(shown(&Vec::new()), "");
}

#[test]
fn a_target_with_a_prefix_replaces_the_root() {
    let root = vec![Segment::Prefix("C:".to_string()), Segment::RootDir, name("ws")];
    let same_drive = vec![Segment::Prefix("C:".to_string()), Segment::RootDir, name("ws"), name("a")];
    let other_drive = vec![Segment::Prefix("D:".to_string()), Segment::RootDir, name("ws"), name("a")];
    let rooted = vec![Segment::RootDir, name("ws"), name("b")];
    assert_eq!(shown(&validate(&root, &same_drive).ok().unwrap()), "C:/ws/a");
    assert!(matches!(validate(&root, &other_drive), Err(FsError::AccessDenied(_))));
    assert_eq!(shown(&validate(&root, &rooted).ok().unwrap()), "C:/ws/b");
}

#[test]
fn the_root_can_be_given_and_read_as_segments() {
    let given = vec![Segment::RootDir, name("a"), Segment::ParentDir, name("ws")];
    let mut fs = LocalFileSystem::with_root(&given).unwrap();
    assert_eq!(fs.get_cwd(), "/ws");
    assert_eq!(shown(&fs.root_segments()), "/ws");
    let inside = vec![name("x"), Segment::ParentDir, name("y")];
    assert_eq!(shown(&fs.validate_segments(&inside).ok().unwrap()), "/ws/y");
    let outside = vec![Segment::ParentDir, name("y")];
    match fs.validate_segments(&outside) {
        Err(FsError::AccessDenied(p)) => assert_eq!(shown(&p), "/y"),
        _ => panic!("a path outside the root was let through"),
    }
    assert!(fs.set_root(&vec![Segment::RootDir, name("next")]).is_ok());
    assert_eq!(fs.get_cwd(), "/next");
    assert!(matches!(fs.set_root(&vec![name("relative")]), Err(FsError::AccessDenied(_))));
    assert_eq!(fs.get_cwd(), "/next");
}

#[test]
fn whatever_stays_inside_is_accepted_below_the_root() {
    let root = vec![Segment::RootDir, name("ws")];
    let target =
        vec![name("a"), name("b"), Segment::ParentDir, Segment::CurDir, Segment::ParentDir, name("c")];
    let resolved = validate(&root, &target).ok().unwrap();
    assert_eq!(shown(&resolved), "/ws/c");
    assert!(starts_with(&normalize_path(&resolved), &normalize_path(&root)));
}

#[test]
fn a_relative_root_is_refused_from_the_start() {
    match LocalFileSystem::new("some/where/..".to_string()) {
        Err(FsError::AccessDenied(p)) => assert_eq!(shown(&p), "some"),
        _ => panic!("a relative root was accepted"),
    }
    assert!(matches!(LocalFileSystem::new("".to_string()), Err(FsError::AccessDenied(_))));
    assert!(matches!(
        LocalFileSystem::with_root(&vec![name("ws")]),
        Err(FsError::AccessDenied(_))
    ));
    assert!(LocalFileSystem::new("/".to_string()).is_ok());
}

#[test]
fn a_snapshot_keeps_the_root_it_was_taken_with() {
    let mut fs = LocalFileSystem::new("/one".to_string()).unwrap();
    let copy = fs.snapshot();
    assert!(fs.set_cwd("/two").is_ok());
    assert_eq!(copy.get_cwd(), "/one");
    assert_eq!(fs.get_cwd(), "/two");
    assert!(copy.validate_path("/one/a").is_ok());
}

#[test]
fn both_ends_of_a_move_are_validated() {
    let fs = LocalFileSystem::new("/ws".to_string()).unwrap();
    let (from, to) = fs.validate_both("a/../b.txt", "/ws/sub/c.txt").unwrap();
    assert_eq!(shown(&from), "/ws/b.txt");
    assert_eq!(shown(&to), "/ws/sub/c.txt");
    match fs.validate_both("../out.txt", "in.txt") {
        Err(FsError::AccessDenied(p)) => assert_eq!(shown(&p), "/out.txt"),
        _ => panic!("a move from outside the root was let through"),
    }
    match fs.validate_both("in.txt", "/tmp/out.txt") {
        Err(FsError::AccessDenied(p)) => assert_eq!(shown(&p), "/tmp/out.txt"),
        _ => panic!("a move to outside the root was let through"),
    }
    match fs.validate_both("../first", "../second") {
        Err(FsError::AccessDenied(p)) => assert_eq!(shown(&p), "/first"),
        _ => panic!("a move outside the root was let through"),
    }
    let inside = vec![name("x")];
    let outside = vec![Segment::ParentDir, name("y")];
    assert!(fs.validate_both_segments(&inside, &inside).is_ok());
    assert!(fs.validate_both_segments(&inside, &outside).is_err());
}
