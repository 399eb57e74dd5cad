use zyma::error::FsError;
use zyma::events::{event_after, Change, FsEvent, FsEventKind, WorkspaceService, ZymaEvent};
use zyma::system::{simplify_path, ExecResult, UpdateInfo};
use zyma::vfs::{FileItem, FileKind, FileStat, FileSystem};

struct Memory {
    root: String,
    files: Vec<(String, String)>,
}

impl FileSystem for Memory {
    fn read_dir(&self, _path: &str) -> Result<Vec<FileItem>, FsError> {
        Ok(self.files.iter().map(|(p, _)| FileItem::new(p.clone(), p, false)).collect())
    }

    fn read_file(&self, path: &str) -> Result<String, FsError> {
        match self.files.iter().find(|(p, _)| p == path) {
            Some((_, c)) => Ok(c.clone()),
            None => Err(FsError::NotFound(path.to_string())),
        }
    }

    fn write_file(&mut self, path: &str, content: &str) -> Result<(), FsError> {
        self.files.retain(|(p, _)| p != path);
        self.files.push((path.to_string(), content.to_string()));
        Ok(())
    }

    fn create_file(&mut self, path: &str) -> Result<(), FsError> {
        self.write_file(path, "")
    }

    fn create_dir(&mut self, _path: &str) -> Result<(), FsError> {
        Err(FsError::Unsupported)
    }

    fn remove_item(&mut self, path: &str) -> Result<(), FsError> {
        let before = self.files.len();
        self.files.retain(|(p, _)| p != path);
        if self.files.len() < before {
            Ok(())
        } else {
            Err(FsError::NotFound(path.to_string()))
        }
    }

    fn rename_item(&mut self, from: &str, to: &str) -> Result<(), FsError> {
        let content = self.read_file(from)?;
        self.remove_item(from)?;
        self.write_file(to, &content)
    }

    fn stat(&self, path: &str) -> Result<FileStat, FsError> {
        let content = self.read_file(path)?;
        Ok(FileStat::new(FileKind::File, content.len() as u64, None))
    }

    fn get_cwd(&self) -> String {
        self.root.clone()
    }

    fn set_cwd(&mut self, path: &str) -> Result<(), FsError> {
        self.root = path.to_string();
        Ok(())
    }
}

fn workspace() -> WorkspaceService<Memory> {
    WorkspaceService::new(Memory { root: "/ws".to_string(), files: Vec::new() })
}

#[test]
fn event_after_names_what_happened() {
    assert!(matches!(event_after(Change::Write, "a", true), Some(ZymaEvent::FileSaved(p)) if p == "a"));
    assert!(matches!(event_after(Change::CreateFile, "a", true), Some(ZymaEvent::FileCreated(p)) if p == "a"));
    assert!(matches!(event_after(Change::CreateDir, "d", true), Some(ZymaEvent::FileCreated(p)) if p == "d"));
    assert!(matches!(event_after(Change::Remove, "a", true), Some(ZymaEvent::FileDeleted(p)) if p == "a"));
    assert!(matches!(event_after(Change::SetRoot, "/w", true), Some(ZymaEvent::WorkspaceChanged(p)) if p == "/w"));
    assert!(event_after(Change::Rename, "a", true).is_none());
    assert!(event_after(Change::Write, "a", false).is_none());
    assert!(event_after(Change::Remove, "a", false).is_none());
}

#[test]
fn create_then_read_is_empty_and_write_then_read_round_trips() {
    let mut ws = workspace();
    let (done, event) = ws.create_file("a.txt");
    assert!(done.is_ok());
    assert!(matches!(event, Some(ZymaEvent::FileCreated(p)) if p == "a.txt"));
    assert_eq!(ws.fs.read_file("a.txt").ok().unwrap(), "");
    let (done, event) = ws.write_file("a.txt", "content\n");
    assert!(done.is_ok());
    assert!(matches!(event, Some(ZymaEvent::FileSaved(p)) if p == "a.txt"));
    assert_eq!(ws.fs.read_file("a.txt").ok().unwrap(), "content\n");
    assert_eq!(ws.fs.stat("a.txt").ok().unwrap().size, 8);
    assert_eq!(ws.fs.read_dir("").ok().unwrap().len(), 1);
}

#[test]
fn a_failed_change_publishes_nothing() {
    let mut ws = workspace();
    let (done, event) = ws.remove_item("missing");
    assert!(matches!(done, Err(FsError::NotFound(_))));
    assert!(event.is_none());
    let (done, event) = ws.create_dir("d");
    assert!(matches!(done, Err(FsError::Unsupported)));
    assert!(event.is_none());
}

#[test]
fn remove_and_set_cwd_publish_their_events() {
    let mut ws = workspace();
    ws.write_file("a", "x");
    let (done, event) = ws.rename_item("a", "b");
    assert!(done.is_ok());
    assert!(event.is_none());
    let (done, event) = ws.remove_item("b");
    assert!(done.is_ok());
    assert!(matches!(event, Some(ZymaEvent::FileDeleted(p)) if p == "b"));
    let (done, event) = ws.set_cwd("/other");
    assert!(done.is_ok());
    assert!(matches!(event, Some(ZymaEvent::WorkspaceChanged(p)) if p == "/other"));
    assert_eq!(ws.fs.get_cwd(), "/other");
}

#[test]
fn watcher_events_carry_forward_slashes() {
    let paths = vec!["C:\\ws\\a.txt".to_string(), "/ws/b".to_string()];
    let e = FsEvent::new(FsEventKind::Modify, &paths).unwrap();
    assert!(e.kind == FsEventKind::Modify);
    assert_eq!(e.paths, vec!["C:/ws/a.txt".to_string(), "/ws/b".to_string()]);
    assert!(FsEvent::new(FsEventKind::Unknown, &paths).is_none());
    assert_eq!(FsEventKind::Create.event_name(), Some("fs_create".to_string()));
    assert_eq!(FsEventKind::Modify.event_name(), Some("fs_change".to_string()));
    assert_eq!(FsEventKind::Remove.event_name(), Some("fs_delete".to_string()));
    assert_eq!(FsEventKind::Unknown.event_name(), None);
}

#[test]
fn exec_result_trims_output_and_defaults_the_code() {
    let r = ExecResult::from_output(&b"  out\n".to_vec(), &vec![b'e', 0xff, b'\n'], Some(3));
    assert_eq!(r.stdout, "out");
    assert_eq!(r.stderr, "e\u{fffd}");
    assert_eq!(r.exit_code, 3);
    assert_eq!(ExecResult::from_output(&Vec::new(), &Vec::new(), None).exit_code, -1);
}

#[test]
fn update_info_strips_the_v_and_picks_the_page() {
    let u = UpdateInfo::from_release("Gitee", "v1.2.3");
    assert_eq!(u.version, "1.2.3");
    assert_eq!(u.source, "Gitee");
    assert_eq!(u.url, "https://gitee.com/zymaio/zyma/releases");
    let u = UpdateInfo::from_release("GitHub", "vv2.0-v");
    assert_eq!(u.version, "2.0-v");
    assert_eq!(u.url, "https://github.com/zymaio/zyma/releases");
    assert_eq!(UpdateInfo::from_release("x", "3").version, "3");
}

#[test]
fn simplify_path_strips_the_verbatim_mark() {
    assert_eq!(simplify_path("\\\\?\\C:\\plugins\\a".to_string()), "C:\\plugins\\a");
    assert_eq!(simplify_path("/home/u/.zyma/plugins".to_string()), "/home/u/.zyma/plugins");
    assert_eq!(simplify_path("\\\\?".to_string()), "\\\\?");
    assert_eq!(simplify_path("\\\\?\\".to_string()), "");
}
