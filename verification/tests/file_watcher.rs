use modbus_watch::file_watcher::{
    file_events, glob_match, watch_loop_step, FileEvent, WatchLoopStep, FileWatcher, FileWatcherConfig, HandlerMethod, SimpleFileEventHandler,
    WatchMode,
};
use notify::event::{AccessKind, CreateKind, DataChange, ModifyKind, RemoveKind};
use notify::EventKind;
use std::path::PathBuf;

#[test]
fn default_config_watches_recursively_for_create_modify_remove() {
    let c = FileWatcherConfig::default();
    assert!(c.recursive);
    assert_eq!(
        c.event_types,
        vec![
            EventKind::Create(CreateKind::Any),
            EventKind::Modify(ModifyKind::Any),
            EventKind::Remove(RemoveKind::Any)
        ]
    );
    assert!(c.ignore_patterns.is_empty());
}

#[test]
fn config_watch_mode() {
    let c = FileWatcherConfig::default();
    assert_eq!(c.watch_mode(), WatchMode::Recursive);
    let c = FileWatcherConfig { recursive: false, ..Default::default() };
    assert_eq!(c.watch_mode(), WatchMode::NonRecursive);
}

#[test]
fn watched_path_is_listed_after_watch() {
    let mut w = FileWatcher::new();
    assert!(w.watched_paths().is_empty());
    let dir = PathBuf::from("/tmp/watched-dir");
    w.record_watch(dir.clone(), FileWatcherConfig::default().watch_mode());
    assert!(w.watched_paths().contains(&&dir));
}

#[test]
fn watching_an_equal_path_again_keeps_one_entry() {
    let mut w = FileWatcher::new();
    w.record_watch(PathBuf::from("data/logs"), WatchMode::Recursive);
    w.record_watch(PathBuf::from("other"), WatchMode::Recursive);
    w.record_watch(PathBuf::from("data//logs/"), WatchMode::NonRecursive);
    let paths: Vec<PathBuf> = w.watched_paths().into_iter().cloned().collect();
    assert_eq!(paths, vec![PathBuf::from("data/logs"), PathBuf::from("other")]);
    assert_eq!(paths[0].to_str(), Some("data/logs"));
}

#[test]
fn unwatch_forgets_the_path() {
    let mut w = FileWatcher::new();
    w.record_watch(PathBuf::from("a"), WatchMode::Recursive);
    w.record_watch(PathBuf::from("b"), WatchMode::Recursive);
    w.record_unwatch(&PathBuf::from("a/"));
    let paths: Vec<PathBuf> = w.watched_paths().into_iter().cloned().collect();
    assert_eq!(paths, vec![PathBuf::from("b")]);
    w.record_unwatch(&PathBuf::from("c"));
    assert_eq!(w.watched_paths().len(), 1);
}

#[test]
fn stop_all_returns_every_path_and_empties() {
    let mut w = FileWatcher::new();
    w.record_watch(PathBuf::from("x"), WatchMode::Recursive);
    w.record_watch(PathBuf::from("y"), WatchMode::NonRecursive);
    assert_eq!(w.stop_all(), vec![PathBuf::from("x"), PathBuf::from("y")]);
    assert!(w.watched_paths().is_empty());
    assert!(w.stop_all().is_empty());
}

fn path_of(e: &FileEvent) -> &PathBuf {
    match e {
        FileEvent::Create(p) | FileEvent::Modify(p) | FileEvent::Remove(p) | FileEvent::Other(p, _) => p,
    }
}

#[test]
fn events_one_per_path_in_order() {
    let paths = vec![PathBuf::from("a"), PathBuf::from("b"), PathBuf::from("c")];
    let events = file_events(EventKind::Create(CreateKind::File), paths.clone());
    assert_eq!(events.len(), 3);
    for (e, p) in events.iter().zip(paths.iter()) {
        assert!(matches!(e, FileEvent::Create(_)));
        assert_eq!(path_of(e), p);
    }
}

#[test]
fn events_follow_the_kind() {
    let p = || vec![PathBuf::from("f")];
    assert!(matches!(file_events(EventKind::Modify(ModifyKind::Data(DataChange::Content)), p())[0], FileEvent::Modify(_)));
    assert!(matches!(file_events(EventKind::Remove(RemoveKind::Folder), p())[0], FileEvent::Remove(_)));
    let access = EventKind::Access(AccessKind::Read);
    match &file_events(access, p())[0] {
        FileEvent::Other(path, kind) => {
            assert_eq!(path, &PathBuf::from("f"));
            assert_eq!(*kind, access);
        }
        other => panic!("unexpected {:?}", other),
    }
    assert!(matches!(file_events(EventKind::Any, p())[0], FileEvent::Other(_, EventKind::Any)));
    assert!(matches!(file_events(EventKind::Other, p())[0], FileEvent::Other(_, EventKind::Other)));
    assert!(file_events(EventKind::Any, vec![]).is_empty());
}

#[test]
fn simple_handler_messages() {
    let h = SimpleFileEventHandler;
    assert_eq!(h.create_message("/tmp/a.txt"), "文件创建: /tmp/a.txt");
    assert_eq!(h.modify_message("b"), "文件修改: b");
    assert_eq!(h.remove_message(""), "文件删除: ");
}

#[test]
fn watching_the_same_path_twice_lists_it_once() {
    let mut w = FileWatcher::new();
    w.record_watch(PathBuf::from("a"), WatchMode::Recursive);
    w.record_watch(PathBuf::from("b"), WatchMode::Recursive);
    let before: Vec<PathBuf> = w.watched_paths().into_iter().cloned().collect();
    w.record_watch(PathBuf::from("b"), WatchMode::NonRecursive);
    let after: Vec<PathBuf> = w.watched_paths().into_iter().cloned().collect();
    assert_eq!(before, after);
}

#[test]
fn unwatch_after_watch_restores_the_table() {
    let mut w = FileWatcher::new();
    w.record_watch(PathBuf::from("a"), WatchMode::Recursive);
    let before: Vec<PathBuf> = w.watched_paths().into_iter().cloned().collect();
    w.record_watch(PathBuf::from("new"), WatchMode::Recursive);
    w.record_unwatch(&PathBuf::from("new"));
    let after: Vec<PathBuf> = w.watched_paths().into_iter().cloned().collect();
    assert_eq!(before, after);
}

#[test]
fn file_event_clones() {
    let e = FileEvent::Other(PathBuf::from("p"), EventKind::Any);
    match e.clone() {
        FileEvent::Other(p, k) => {
            assert_eq!(p, PathBuf::from("p"));
            assert_eq!(k, EventKind::Any);
        }
        other => panic!("unexpected {:?}", other),
    }
}

#[test]
fn handler_methods_and_failure_messages() {
    let p = || PathBuf::from("f");
    assert_eq!(FileEvent::Create(p()).handler_method(), HandlerMethod::OnFileCreate);
    assert_eq!(FileEvent::Modify(p()).handler_method(), HandlerMethod::OnFileModify);
    assert_eq!(FileEvent::Remove(p()).handler_method(), HandlerMethod::OnFileRemove);
    assert_eq!(FileEvent::Other(p(), EventKind::Any).handler_method(), HandlerMethod::OnFileOther);
    assert_eq!(HandlerMethod::OnFileCreate.failure_message("boom"), "处理文件创建事件失败: boom");
    assert_eq!(HandlerMethod::OnFileModify.failure_message("x"), "处理文件修改事件失败: x");
    assert_eq!(HandlerMethod::OnFileRemove.failure_message("x"), "处理文件删除事件失败: x");
    assert_eq!(HandlerMethod::OnFileOther.failure_message(""), "处理其他文件事件失败: ");
}

#[test]
fn glob_patterns() {
    assert!(glob_match("*.tmp", "/a/b/c.tmp"));
    assert!(!glob_match("*.tmp", "/a/b/c.tmpx"));
    assert!(glob_match("a?c", "abc"));
    assert!(!glob_match("a?c", "ac"));
    assert!(glob_match("", ""));
    assert!(!glob_match("", "a"));
    assert!(glob_match("*", ""));
    assert!(glob_match("**a*", "xxayy"));
    assert!(glob_match("日志*", "日志.txt"));
    assert!(!glob_match("abc", "abd"));
}

#[test]
fn default_config_accepts_create_modify_remove_only() {
    let c = FileWatcherConfig::default();
    let p = || PathBuf::from("/w/file.txt");
    assert!(c.accepts(&FileEvent::Create(p())));
    assert!(c.accepts(&FileEvent::Modify(p())));
    assert!(c.accepts(&FileEvent::Remove(p())));
    assert!(!c.accepts(&FileEvent::Other(p(), EventKind::Access(AccessKind::Read))));
}

#[test]
fn config_ignores_matching_paths() {
    let c = FileWatcherConfig { ignore_patterns: vec!["*.swp".to_string(), "*/target/*".to_string()], ..Default::default() };
    assert!(!c.accepts(&FileEvent::Create(PathBuf::from("/w/.a.swp"))));
    assert!(!c.accepts(&FileEvent::Modify(PathBuf::from("/w/target/x.o"))));
    assert!(c.accepts(&FileEvent::Modify(PathBuf::from("/w/src/x.rs"))));
    let only_other = FileWatcherConfig { event_types: vec![EventKind::Any], ..Default::default() };
    assert!(only_other.accepts(&FileEvent::Other(PathBuf::from("f"), EventKind::Other)));
    assert!(!only_other.accepts(&FileEvent::Create(PathBuf::from("f"))));
}

#[test]
fn watch_loop_stops_only_when_the_channel_closes() {
    assert!(matches!(watch_loop_step(None), WatchLoopStep::Stop));
    match watch_loop_step(Some(Err(notify::Error::generic("backend failed")))) {
        WatchLoopStep::Report(e) => assert!(e.to_string().contains("backend failed")),
        other => panic!("unexpected {:?}", other),
    }
    match watch_loop_step(Some(Ok((EventKind::Remove(RemoveKind::File), vec![PathBuf::from("a"), PathBuf::from("b")])))) {
        WatchLoopStep::Handle(events) => {
            assert_eq!(events.len(), 2);
            assert!(matches!(&events[0], FileEvent::Remove(p) if p == &PathBuf::from("a")));
            assert!(matches!(&events[1], FileEvent::Remove(p) if p == &PathBuf::from("b")));
        }
        other => panic!("unexpected {:?}", other),
    }
}

#[test]
fn watched_paths_are_listed_once() {
    let mut w = FileWatcher::new();
    for _ in 0..3 {
        w.record_watch(PathBuf::from("/data"), WatchMode::Recursive);
        w.record_watch(PathBuf::from("/data/"), WatchMode::NonRecursive);
    }
    assert_eq!(w.watched_paths().len(), 1);
}
