//! File-watching logic: the watcher's configuration, the table of watched
//! paths, and the conversion of `notify` events into per-path file events.
//!
//! Registering watches with the operating system and receiving its events is
//! done around this library; the table here records what is watched.

use std::path::PathBuf;
use vstd::prelude::*;
use vstd::string::StrSliceExecFns;

verus! {

/// `notify::Error`, carried through the library as an opaque value.
#[verifier::external_type_specification]
#[verifier::external_body]
pub struct ExNotifyError(notify::Error);

/// `std::path::PathBuf`, carried through the library as an opaque value.
#[verifier::external_type_specification]
#[verifier::external_body]
pub struct ExPathBuf(std::path::PathBuf);

/// `notify::EventKind`, carried through the library as an opaque value.
#[verifier::external_type_specification]
#[verifier::external_body]
pub struct ExEventKind(notify::EventKind);

/// What `<PathBuf as PartialEq>::eq` answers for two paths (paths are equal
/// when their components are).
pub uninterp spec fn same_path(a: PathBuf, b: PathBuf) -> bool;

/// Calls `<PathBuf as PartialEq>::eq`; the result is `same_path` of the two
/// paths, and identical paths compare equal (`PathBuf` is `Eq`, so its
/// equality is reflexive).
#[verifier::external_body]
fn paths_equal(a: &PathBuf, b: &PathBuf) -> (r: bool)
    ensures
        r == same_path(*a, *b),
        *a == *b ==> r,
{
    a == b
}

/// The top-level variant of a `notify::EventKind`.
#[derive(Clone, Copy, Debug, PartialEq, Eq, Structural)]
pub enum EventClass {
    Create,
    Modify,
    Remove,
    /// `Any`, `Access` and `Other`.
    Other,
}

/// Which top-level variant of `notify::EventKind` a kind is.
pub uninterp spec fn notify_event_class(kind: notify::EventKind) -> EventClass;

/// Tells the variants of a `notify::EventKind` apart; the result is
/// `notify_event_class` of the kind.
#[verifier::external_body]
fn event_class(kind: &notify::EventKind) -> (r: EventClass)
    ensures
        r == notify_event_class(*kind),
{
    match kind {
        notify::EventKind::Create(_) => EventClass::Create,
        notify::EventKind::Modify(_) => EventClass::Modify,
        notify::EventKind::Remove(_) => EventClass::Remove,
        notify::EventKind::Any => EventClass::Other,
        notify::EventKind::Access(_) => EventClass::Other,
        notify::EventKind::Other => EventClass::Other,
    }
}

/// `<PathBuf as Clone>::clone`. Nothing is stated of the copy.
pub assume_specification[ <std::path::PathBuf as Clone>::clone ](path: &PathBuf) -> PathBuf;

/// `<notify::EventKind as Clone>::clone`: `EventKind` is `Copy` and derives
/// `Clone`, so the clone is the kind itself.
pub assume_specification[ <notify::EventKind as Clone>::clone ](kind: &notify::EventKind) -> (r:
    notify::EventKind)
    ensures
        r == *kind,
;

/// A file event for one path.
#[derive(Debug, Clone)]
pub enum FileEvent {
    /// A file was created.
    Create(PathBuf),
    /// A file was modified.
    Modify(PathBuf),
    /// A file was removed.
    Remove(PathBuf),
    /// Any other event, with its kind.
    Other(PathBuf, notify::EventKind),
}

/// The file event for `path` of an event of kind `kind` whose class is `class`.
pub open spec fn file_event_for(class: EventClass, kind: notify::EventKind, path: PathBuf) -> FileEvent {
    match class {
        EventClass::Create => FileEvent::Create(path),
        EventClass::Modify => FileEvent::Modify(path),
        EventClass::Remove => FileEvent::Remove(path),
        EventClass::Other => FileEvent::Other(path, kind),
    }
}

/// The file events for an event of class `class` and kind `kind` touching
/// `paths`: one per path, in order.
pub fn file_events_for_class(class: EventClass, kind: notify::EventKind, paths: Vec<PathBuf>) -> (r: Vec<
    FileEvent,
>)
    ensures
        r@ == paths@.map_values(|p: PathBuf| file_event_for(class, kind, p)),
{
    let ghost all = paths@;
    let mut paths = paths;
    let mut r: Vec<FileEvent> = Vec::new();
    while paths.len() > 0
        invariant
            r.len() + paths.len() == all.len(),
            r@ == all.take(r.len() as int).map_values(|p: PathBuf| file_event_for(class, kind, p)),
            paths@ == all.skip(r.len() as int),
        decreases paths.len(),
    {
        let path = paths.remove(0);
        let ghost k = r.len() as int;
        let event = match class {
            EventClass::Create => FileEvent::Create(path),
            EventClass::Modify => FileEvent::Modify(path),
            EventClass::Remove => FileEvent::Remove(path),
            EventClass::Other => FileEvent::Other(path, kind),
        };
        r.push(event);
        assert(all.take(k + 1) =~= all.take(k).push(all[k]));
        assert(all.skip(k + 1) =~= all.skip(k).remove(0));
    }
    assert(all.take(all.len() as int) =~= all);
    r
}

/// The file events of a `notify` event of kind `kind` touching `paths`: one
/// per path, in order, `Create`, `Modify` or `Remove` after the kind's
/// top-level variant, `Other` carrying the kind for every other kind.
pub fn file_events(kind: notify::EventKind, paths: Vec<PathBuf>) -> (r: Vec<FileEvent>)
    ensures
        r@ == paths@.map_values(|p: PathBuf| file_event_for(notify_event_class(kind), kind, p)),
{
    let class = event_class(&kind);
    file_events_for_class(class, kind, paths)
}


/// How a path is watched: with or without its subdirectories.
#[derive(Clone, Copy, Debug, PartialEq, Eq, Hash, Structural)]
pub enum WatchMode {
    Recursive,
    NonRecursive,
}

/// The watcher's configuration.
#[derive(Debug, Clone)]
pub struct FileWatcherConfig {
    /// Whether subdirectories are watched too.
    pub recursive: bool,
    /// The kinds of events of interest.
    pub event_types: Vec<notify::EventKind>,
    /// Glob patterns of files to ignore.
    pub ignore_patterns: Vec<String>,
}

/// Whether a `notify::EventKind` of the variants `Access`, `Create`,
/// `Modify` or `Remove` carries the inner kind `Any` (as
/// `Create(CreateKind::Any)` does).
pub uninterp spec fn notify_inner_kind_is_any(kind: notify::EventKind) -> bool;

/// `notify::EventKind::Create(CreateKind::Any)`.
#[verifier::external_body]
fn create_any_kind() -> (r: notify::EventKind)
    ensures
        notify_event_class(r) == EventClass::Create,
        notify_inner_kind_is_any(r),
{
    notify::EventKind::Create(notify::event::CreateKind::Any)
}

/// `notify::EventKind::Modify(ModifyKind::Any)`.
#[verifier::external_body]
fn modify_any_kind() -> (r: notify::EventKind)
    ensures
        notify_event_class(r) == EventClass::Modify,
        notify_inner_kind_is_any(r),
{
    notify::EventKind::Modify(notify::event::ModifyKind::Any)
}

/// `notify::EventKind::Remove(RemoveKind::Any)`.
#[verifier::external_body]
fn remove_any_kind() -> (r: notify::EventKind)
    ensures
        notify_event_class(r) == EventClass::Remove,
        notify_inner_kind_is_any(r),
{
    notify::EventKind::Remove(notify::event::RemoveKind::Any)
}

impl Default for FileWatcherConfig {
    /// Watches recursively, for creations, modifications and removals of any
    /// kind, ignoring nothing.
    fn default() -> (c: Self)
        ensures
            c.recursive,
            c.event_types@.len() == 3,
            notify_event_class(c.event_types@[0]) == EventClass::Create,
            notify_event_class(c.event_types@[1]) == EventClass::Modify,
            notify_event_class(c.event_types@[2]) == EventClass::Remove,
            forall|i: int| 0 <= i < 3 ==> notify_inner_kind_is_any(#[trigger] c.event_types@[i]),
            c.ignore_patterns@.len() == 0,
    {
        let mut event_types: Vec<notify::EventKind> = Vec::new();
        event_types.push(create_any_kind());
        event_types.push(modify_any_kind());
        event_types.push(remove_any_kind());
        FileWatcherConfig { recursive: true, event_types, ignore_patterns: Vec::new() }
    }
}

impl FileWatcherConfig {
    /// How a path is watched under this configuration.
    pub fn watch_mode(&self) -> (m: WatchMode)
        ensures
            m == (if self.recursive {
                WatchMode::Recursive
            } else {
                WatchMode::NonRecursive
            }),
    {
        if self.recursive {
            WatchMode::Recursive
        } else {
            WatchMode::NonRecursive
        }
    }
}

/// No two entries of `entries` hold paths that compare equal (the earlier
/// one taken first).
pub open spec fn distinct_paths(entries: Seq<(PathBuf, WatchMode)>) -> bool {
    forall|i: int, j: int|
        0 <= i < j < entries.len() ==> !same_path(#[trigger] entries[i].0, #[trigger] entries[j].0)
            && entries[i].0 != entries[j].0
}

/// The index of the first entry whose path compares equal to `path`.
pub open spec fn first_match(entries: Seq<(PathBuf, WatchMode)>, path: PathBuf, i: int) -> bool {
    &&& 0 <= i < entries.len()
    &&& same_path(entries[i].0, path)
    &&& forall|j: int| 0 <= j < i ==> !same_path(#[trigger] entries[j].0, path)
}

/// Some entry's path compares equal to `path`.
pub open spec fn has_match(entries: Seq<(PathBuf, WatchMode)>, path: PathBuf) -> bool {
    exists|i: int| first_match(entries, path, i)
}

/// A path that is in the table is found when looked up: when no entry
/// compares equal to `path`, no entry is `path` itself.
pub open spec fn found_if_present(entries: Seq<(PathBuf, WatchMode)>, path: PathBuf) -> bool {
    !has_match(entries, path) ==> forall|j: int|
        0 <= j < entries.len() ==> #[trigger] entries[j].0 != path
}

/// The table after watching `path` in `mode`: the first entry that compares
/// equal keeps its path and takes the mode, or the path is added at the end.
pub open spec fn watch_result(entries: Seq<(PathBuf, WatchMode)>, path: PathBuf, mode: WatchMode) -> Seq<
    (PathBuf, WatchMode),
> {
    if has_match(entries, path) {
        let i = choose|i: int| first_match(entries, path, i);
        entries.update(i, (entries[i].0, mode))
    } else {
        entries.push((path, mode))
    }
}

/// The table after unwatching `path`: the first entry that compares equal is
/// removed, if there is one.
pub open spec fn unwatch_result(entries: Seq<(PathBuf, WatchMode)>, path: PathBuf) -> Seq<
    (PathBuf, WatchMode),
> {
    if has_match(entries, path) {
        let i = choose|i: int| first_match(entries, path, i);
        entries.remove(i)
    } else {
        entries
    }
}

/// There is at most one first match.
pub proof fn lemma_first_match_unique(entries: Seq<(PathBuf, WatchMode)>, path: PathBuf, i: int, k: int)
    requires
        first_match(entries, path, i),
        first_match(entries, path, k),
    ensures
        i == k,
{
    if i < k {
        assert(!same_path(entries[i].0, path));
    } else if k < i {
        assert(!same_path(entries[k].0, path));
    }
}

/// When an entry compares equal to `path`, there is a first such entry.
pub proof fn lemma_match_has_first(entries: Seq<(PathBuf, WatchMode)>, path: PathBuf, j: int)
    requires
        0 <= j < entries.len(),
        same_path(entries[j].0, path),
    ensures
        has_match(entries, path),
    decreases j,
{
    if forall|k: int| 0 <= k < j ==> !same_path(#[trigger] entries[k].0, path) {
        assert(first_match(entries, path, j));
    } else {
        let k = choose|k: int| 0 <= k < j && same_path(#[trigger] entries[k].0, path);
        lemma_match_has_first(entries, path, k);
    }
}

/// The table of watched paths, each with the mode it is watched in.
pub struct FileWatcher {
    watched: Vec<(PathBuf, WatchMode)>,
}

impl FileWatcher {
    /// The watched paths with their modes, in the order they were first watched.
    pub closed spec fn entries(&self) -> Seq<(PathBuf, WatchMode)> {
        self.watched@
    }

    /// No path is in the table twice.
    #[verifier::type_invariant]
    closed spec fn no_repeated_path(&self) -> bool {
        distinct_paths(self.watched@)
    }

    /// An empty table.
    pub fn new() -> (w: Self)
        ensures
            w.entries() == Seq::<(PathBuf, WatchMode)>::empty(),
            distinct_paths(w.entries()),
    {
        FileWatcher { watched: Vec::new() }
    }

    /// The index of the first entry for `path`, if any.
    fn position(&self, path: &PathBuf) -> (r: Option<usize>)
        ensures
            match r {
                Some(i) => first_match(self.entries(), *path, i as int),
                None => forall|j: int|
                    0 <= j < self.entries().len() ==> !same_path(#[trigger] self.entries()[j].0, *path)
                        && self.entries()[j].0 != *path,
            },
    {
        let mut i: usize = 0;
        while i < self.watched.len()
            invariant
                i <= self.watched.len(),
                forall|j: int|
                    0 <= j < i ==> !same_path(#[trigger] self.watched@[j].0, *path)
                        && self.watched@[j].0 != *path,
            decreases self.watched.len() - i,
        {
            if paths_equal(&self.watched[i].0, path) {
                return Some(i);
            }
            i = i + 1;
        }
        None
    }

    /// Records that `path` is now watched in `mode`. A path that is in the
    /// table already keeps its entry (and the path it was first recorded
    /// with) and takes the new mode; another path is added at the end.
    pub fn record_watch(&mut self, path: PathBuf, mode: WatchMode)
        ensures
            final(self).entries() == watch_result(old(self).entries(), path, mode),
            distinct_paths(final(self).entries()),
            found_if_present(old(self).entries(), path),
            exists|i: int|
                0 <= i < final(self).entries().len() && final(self).entries()[i].1 == mode && (
                #[trigger] final(self).entries()[i].0 == path || same_path(
                    final(self).entries()[i].0,
                    path,
                )),
            (exists|j: int|
                0 <= j < old(self).entries().len() && (#[trigger] old(self).entries()[j].0 == path
                    || same_path(old(self).entries()[j].0, path))) ==> final(self).entries().len()
                == old(self).entries().len() && forall|j: int|
                0 <= j < old(self).entries().len() ==> #[trigger] final(self).entries()[j].0 == old(
                    self,
                ).entries()[j].0,
    {
        proof {
            use_type_invariant(&*self);
        }
        let ghost before = self.watched@;
        let mut watched: Vec<(PathBuf, WatchMode)> = Vec::new();
        match self.position(&path) {
            Some(i) => {
                std::mem::swap(&mut watched, &mut self.watched);
                let (kept, _) = watched.remove(i);
                watched.insert(i, (kept, mode));
                assert(watched@ =~= before.update(i as int, (before[i as int].0, mode)));
                assert(first_match(before, path, i as int));
                proof {
                    let k = choose|k: int| first_match(before, path, k);
                    lemma_first_match_unique(before, path, i as int, k);
                }
                assert(watched@[i as int].1 == mode);
                assert(same_path(watched@[i as int].0, path));
                self.watched = watched;
                assert(same_path(self.entries()[i as int].0, path));
            },
            None => {
                std::mem::swap(&mut watched, &mut self.watched);
                proof {
                    if has_match(before, path) {
                        let k = choose|k: int| first_match(before, path, k);
                        assert(same_path(before[k].0, path));
                    }
                    if exists|j: int|
                        0 <= j < before.len() && (#[trigger] before[j].0 == path || same_path(
                            before[j].0,
                            path,
                        )) {
                        let j = choose|j: int|
                            0 <= j < before.len() && (#[trigger] before[j].0 == path || same_path(
                                before[j].0,
                                path,
                            ));
                        assert(before[j].0 != path);
                    }
                }
                watched.push((path, mode));
                assert(watched@[before.len() as int].0 == path);
                self.watched = watched;
                assert(self.entries()[before.len() as int].0 == path);
            },
        }
    }

    /// Records that `path` is no longer watched: the first entry whose path
    /// compares equal to it is removed; the table is unchanged when there is none.
    pub fn record_unwatch(&mut self, path: &PathBuf)
        ensures
            final(self).entries() == unwatch_result(old(self).entries(), *path),
            distinct_paths(final(self).entries()),
            found_if_present(old(self).entries(), *path),
    {
        proof {
            use_type_invariant(&*self);
        }
        let ghost before = self.watched@;
        match self.position(path) {
            Some(i) => {
                let mut watched: Vec<(PathBuf, WatchMode)> = Vec::new();
                std::mem::swap(&mut watched, &mut self.watched);
                watched.remove(i);
                proof {
                    let after = before.remove(i as int);
                    assert forall|a: int, b: int| 0 <= a < b < after.len() implies !same_path(
                        #[trigger] after[a].0,
                        #[trigger] after[b].0,
                    ) by {
                        let ka = if a < i { a } else { a + 1 };
                        let kb = if b < i { b } else { b + 1 };
                        assert(after[a] == before[ka]);
                        assert(after[b] == before[kb]);
                    }
                    assert(first_match(before, *path, i as int));
                    let k = choose|k: int| first_match(before, *path, k);
                    lemma_first_match_unique(before, *path, i as int, k);
                }
                self.watched = watched;
            },
            None => {
                proof {
                    if has_match(before, *path) {
                        let k = choose|k: int| first_match(before, *path, k);
                        assert(same_path(before[k].0, *path));
                    }
                }
            },
        }
    }

    /// The watched paths, in the order they were first watched.
    pub fn watched_paths(&self) -> (r: Vec<&PathBuf>)
        ensures
            r@.len() == self.entries().len(),
            forall|i: int| 0 <= i < r@.len() ==> *#[trigger] r@[i] == self.entries()[i].0,
            distinct_paths(self.entries()),
            forall|i: int, j: int| 0 <= i < j < r@.len() ==> *#[trigger] r@[i] != *#[trigger] r@[j],
    {
        proof {
            use_type_invariant(self);
        }
        let mut r: Vec<&PathBuf> = Vec::new();
        let mut i: usize = 0;
        while i < self.watched.len()
            invariant
                i <= self.watched.len(),
                r@.len() == i,
                forall|j: int| 0 <= j < i ==> *#[trigger] r@[j] == self.watched@[j].0,
            decreases self.watched.len() - i,
        {
            r.push(&self.watched[i].0);
            i = i + 1;
        }
        r
    }

    /// Empties the table and returns the paths that were watched, in order,
    /// so that each can be unwatched.
    pub fn stop_all(&mut self) -> (r: Vec<PathBuf>)
        ensures
            r@ == old(self).entries().map_values(|e: (PathBuf, WatchMode)| e.0),
            final(self).entries() == Seq::<(PathBuf, WatchMode)>::empty(),
            distinct_paths(final(self).entries()),
    {
        let mut taken: Vec<(PathBuf, WatchMode)> = Vec::new();
        std::mem::swap(&mut taken, &mut self.watched);
        let ghost all = taken@;
        let mut r: Vec<PathBuf> = Vec::new();
        while taken.len() > 0
            invariant
                r.len() + taken.len() == all.len(),
                r@ == all.take(r.len() as int).map_values(|e: (PathBuf, WatchMode)| e.0),
                taken@ == all.skip(r.len() as int),
            decreases taken.len(),
        {
            let (path, _) = taken.remove(0);
            let ghost k = r.len() as int;
            r.push(path);
            assert(all.take(k + 1) =~= all.take(k).push(all[k]));
            assert(all.skip(k + 1) =~= all.skip(k).remove(0));
        }
        assert(all.take(all.len() as int) =~= all);
        assert(self.watched@ =~= Seq::<(PathBuf, WatchMode)>::empty());
        r
    }
}

/// Composes the messages of the simple file event handler.
pub struct SimpleFileEventHandler;

impl SimpleFileEventHandler {
    /// The line reported for a created file, given the path as displayed.
    pub fn create_message(&self, path: &str) -> (m: String)
        ensures
            m@ == "文件创建: "@ + path@,
    {
        String::from_str("文件创建: ").concat(path)
    }

    /// The line reported for a modified file, given the path as displayed.
    pub fn modify_message(&self, path: &str) -> (m: String)
        ensures
            m@ == "文件修改: "@ + path@,
    {
        String::from_str("文件修改: ").concat(path)
    }

    /// The line reported for a removed file, given the path as displayed.
    pub fn remove_message(&self, path: &str) -> (m: String)
        ensures
            m@ == "文件删除: "@ + path@,
    {
        String::from_str("文件删除: ").concat(path)
    }
}


/// Watching a path twice lists it once: the second watch keeps every entry
/// of the first and only sets the mode. `found_if_present` of the table
/// between the calls is what the second `record_watch` ensures.
pub proof fn lemma_watch_twice_lists_once(
    before: Seq<(PathBuf, WatchMode)>,
    path: PathBuf,
    first: WatchMode,
    second: WatchMode,
)
    requires
        found_if_present(watch_result(before, path, first), path),
    ensures
        watch_result(watch_result(before, path, first), path, second) == watch_result(
            before,
            path,
            second,
        ),
{
    let once = watch_result(before, path, first);
    if has_match(before, path) {
        let i = choose|i: int| first_match(before, path, i);
        assert(first_match(once, path, i));
        let k = choose|k: int| first_match(once, path, k);
        lemma_first_match_unique(once, path, i, k);
        assert(once.update(i, (once[i].0, second)) =~= before.update(i, (before[i].0, second)));
    } else {
        let n = before.len() as int;
        assert(once[n].0 == path);
        assert(has_match(once, path));
        let k = choose|k: int| first_match(once, path, k);
        if k < n {
            assert(once[k] == before[k]);
            lemma_match_has_first(before, path, k);
        }
        assert(k == n);
        assert(once.update(n, (once[n].0, second)) =~= before.push((path, second)));
    }
}

/// Watching a path that no entry compares equal to and then unwatching it
/// leaves the table as it was. `found_if_present` of the table between the
/// calls is what `record_unwatch` ensures.
pub proof fn lemma_unwatch_undoes_watch(
    before: Seq<(PathBuf, WatchMode)>,
    path: PathBuf,
    mode: WatchMode,
)
    requires
        !has_match(before, path),
        found_if_present(watch_result(before, path, mode), path),
    ensures
        unwatch_result(watch_result(before, path, mode), path) == before,
{
    let once = watch_result(before, path, mode);
    let n = before.len() as int;
    assert(once[n].0 == path);
    assert(has_match(once, path));
    let k = choose|k: int| first_match(once, path, k);
    if k < n {
        assert(once[k] == before[k]);
        lemma_match_has_first(before, path, k);
    }
    assert(k == n);
    assert(once.remove(n) =~= before);
}


/// The handler method that receives a file event.
#[derive(Clone, Copy, Debug, PartialEq, Eq, Structural)]
pub enum HandlerMethod {
    OnFileCreate,
    OnFileModify,
    OnFileRemove,
    OnFileOther,
}

/// The handler method for each kind of file event.
pub open spec fn method_for(event: FileEvent) -> HandlerMethod {
    match event {
        FileEvent::Create(_) => HandlerMethod::OnFileCreate,
        FileEvent::Modify(_) => HandlerMethod::OnFileModify,
        FileEvent::Remove(_) => HandlerMethod::OnFileRemove,
        FileEvent::Other(_, _) => HandlerMethod::OnFileOther,
    }
}

/// The start of the line reported when a handler method fails.
pub open spec fn failure_prefix(method: HandlerMethod) -> Seq<char> {
    match method {
        HandlerMethod::OnFileCreate => "处理文件创建事件失败: "@,
        HandlerMethod::OnFileModify => "处理文件修改事件失败: "@,
        HandlerMethod::OnFileRemove => "处理文件删除事件失败: "@,
        HandlerMethod::OnFileOther => "处理其他文件事件失败: "@,
    }
}

/// The class of a file event: the top-level kind of the event it came from.
pub open spec fn class_of(event: FileEvent) -> EventClass {
    match event {
        FileEvent::Create(_) => EventClass::Create,
        FileEvent::Modify(_) => EventClass::Modify,
        FileEvent::Remove(_) => EventClass::Remove,
        FileEvent::Other(_, _) => EventClass::Other,
    }
}

/// The path of a file event.
pub open spec fn path_of(event: FileEvent) -> PathBuf {
    match event {
        FileEvent::Create(p) => p,
        FileEvent::Modify(p) => p,
        FileEvent::Remove(p) => p,
        FileEvent::Other(p, _) => p,
    }
}

impl FileEvent {
    /// The handler method that receives this event.
    pub fn handler_method(&self) -> (m: HandlerMethod)
        ensures
            m == method_for(*self),
    {
        match self {
            FileEvent::Create(_) => HandlerMethod::OnFileCreate,
            FileEvent::Modify(_) => HandlerMethod::OnFileModify,
            FileEvent::Remove(_) => HandlerMethod::OnFileRemove,
            FileEvent::Other(_, _) => HandlerMethod::OnFileOther,
        }
    }
}

impl HandlerMethod {
    /// The line reported when this handler method fails with `error`.
    pub fn failure_message(&self, error: &str) -> (m: String)
        ensures
            m@ == failure_prefix(*self) + error@,
    {
        let prefix = match self {
            HandlerMethod::OnFileCreate => "处理文件创建事件失败: ",
            HandlerMethod::OnFileModify => "处理文件修改事件失败: ",
            HandlerMethod::OnFileRemove => "处理文件删除事件失败: ",
            HandlerMethod::OnFileOther => "处理其他文件事件失败: ",
        };
        String::from_str(prefix).concat(error)
    }
}

/// Whether `pattern`, from position `i`, matches `text` from position `j`.
/// In a pattern, `*` matches any run of characters (also none and also
/// `/`), `?` matches any one character, and every other character matches
/// itself.
pub open spec fn glob_from(pattern: Seq<char>, text: Seq<char>, i: int, j: int) -> bool
    decreases pattern.len() - i, text.len() - j,
{
    if i >= pattern.len() {
        j >= text.len()
    } else if pattern[i] == '*' {
        glob_from(pattern, text, i + 1, j) || (j < text.len() && glob_from(pattern, text, i, j + 1))
    } else if j >= text.len() {
        false
    } else if pattern[i] == '?' || pattern[i] == text[j] {
        glob_from(pattern, text, i + 1, j + 1)
    } else {
        false
    }
}

/// Whether the glob `pattern` matches the whole of `text`.
pub open spec fn glob_matches(pattern: Seq<char>, text: Seq<char>) -> bool {
    glob_from(pattern, text, 0, 0)
}

/// The characters of a string.
fn chars_of(s: &str) -> (r: Vec<char>)
    ensures
        r@ == s@,
{
    let n = s.unicode_len();
    let mut r: Vec<char> = Vec::new();
    let mut i: usize = 0;
    while i < n
        invariant
            n == s@.len(),
            i <= n,
            r@ == s@.take(i as int),
        decreases n - i,
    {
        r.push(s.get_char(i));
        assert(s@.take(i + 1) =~= s@.take(i as int).push(s@[i as int]));
        i = i + 1;
    }
    assert(s@.take(n as int) =~= s@);
    r
}

/// Whether the glob `pattern` matches the whole of `text` (see `glob_from`).
pub fn glob_match(pattern: &str, text: &str) -> (r: bool)
    ensures
        r == glob_matches(pattern@, text@),
{
    let p = chars_of(pattern);
    let t = chars_of(text);
    let plen = p.len();
    let tlen = t.len();
    // `next[j]` is whether the pattern from position `i` matches the text
    // from `j` (for `j < tlen`); `next_end` is the same for `j == tlen`.
    let mut next: Vec<bool> = Vec::new();
    let mut k: usize = 0;
    while k < tlen
        invariant
            tlen == t@.len(),
            plen == p@.len(),
            k <= tlen,
            next@.len() == k,
            forall|j: int| 0 <= j < k ==> next@[j] == glob_from(p@, t@, plen as int, j),
        decreases tlen - k,
    {
        next.push(false);
        k = k + 1;
    }
    let mut next_end = true;
    let mut i = plen;
    while i > 0
        invariant
            tlen == t@.len(),
            plen == p@.len(),
            i <= plen,
            next@.len() == tlen,
            forall|j: int| 0 <= j < tlen ==> next@[j] == glob_from(p@, t@, i as int, j),
            next_end == glob_from(p@, t@, i as int, tlen as int),
        decreases i,
    {
        i = i - 1;
        let c = p[i];
        let cur_end = if c == '*' { next_end } else { false };
        assert(cur_end == glob_from(p@, t@, i as int, tlen as int));
        let mut cur: Vec<bool> = next.clone();
        let mut j = tlen;
        let mut after = cur_end;
        while j > 0
            invariant
                tlen == t@.len(),
                plen == p@.len(),
                i < plen,
                c == p@[i as int],
                j <= tlen,
                cur@.len() == tlen,
                next@.len() == tlen,
                forall|jj: int| 0 <= jj < tlen ==> next@[jj] == glob_from(p@, t@, i + 1, jj),
                next_end == glob_from(p@, t@, i + 1, tlen as int),
                forall|jj: int| j <= jj < tlen ==> cur@[jj] == glob_from(p@, t@, i as int, jj),
                after == glob_from(p@, t@, i as int, j as int),
            decreases j,
        {
            j = j - 1;
            let next_after = if j + 1 < tlen { next[j + 1] } else { next_end };
            let v = if c == '*' {
                next[j] || after
            } else {
                (c == '?' || c == t[j]) && next_after
            };
            cur.set(j, v);
            after = v;
        }
        next = cur;
        next_end = cur_end;
    }
    if tlen > 0 {
        next[0]
    } else {
        next_end
    }
}

/// What `Path::to_string_lossy` gives for a path: its text, with any
/// invalid UTF-8 replaced.
pub uninterp spec fn path_text_of(path: PathBuf) -> Seq<char>;

/// Calls `Path::to_string_lossy`; the result is `path_text_of` the path.
#[verifier::external_body]
fn path_text(path: &PathBuf) -> (r: String)
    ensures
        r@ == path_text_of(*path),
{
    path.to_string_lossy().into_owned()
}

/// Some configured type has the class `class`.
pub open spec fn class_wanted(event_types: Seq<notify::EventKind>, class: EventClass) -> bool {
    exists|i: int| 0 <= i < event_types.len() && notify_event_class(event_types[i]) == class
}

/// Some ignore pattern matches `text`.
pub open spec fn text_ignored(patterns: Seq<String>, text: Seq<char>) -> bool {
    exists|i: int| 0 <= i < patterns.len() && glob_matches(patterns[i]@, text)
}

impl FileWatcherConfig {
    /// Whether the event is of interest: some configured event type has its
    /// top-level kind, and no ignore pattern matches its path's text.
    pub fn accepts(&self, event: &FileEvent) -> (r: bool)
        ensures
            r == (class_wanted(self.event_types@, class_of(*event)) && !text_ignored(
                self.ignore_patterns@,
                path_text_of(path_of(*event)),
            )),
    {
        let (class, path) = match event {
            FileEvent::Create(p) => (EventClass::Create, p),
            FileEvent::Modify(p) => (EventClass::Modify, p),
            FileEvent::Remove(p) => (EventClass::Remove, p),
            FileEvent::Other(p, _) => (EventClass::Other, p),
        };
        let mut wanted = false;
        let mut i: usize = 0;
        while i < self.event_types.len()
            invariant
                i <= self.event_types@.len(),
                wanted == exists|k: int|
                    0 <= k < i && notify_event_class(self.event_types@[k]) == class,
            decreases self.event_types@.len() - i,
        {
            if event_class(&self.event_types[i]) == class {
                wanted = true;
            }
            i = i + 1;
        }
        if !wanted {
            return false;
        }
        let text = path_text(path);
        let mut ignored = false;
        let mut i: usize = 0;
        while i < self.ignore_patterns.len()
            invariant
                i <= self.ignore_patterns@.len(),
                text@ == path_text_of(path_of(*event)),
                ignored == exists|k: int|
                    0 <= k < i && glob_matches(self.ignore_patterns@[k]@, text@),
            decreases self.ignore_patterns@.len() - i,
        {
            if glob_match(self.ignore_patterns[i].as_str(), text.as_str()) {
                ignored = true;
            }
            i = i + 1;
        }
        !ignored
    }
}


/// What the file-watch loop does with what it received from the watcher.
#[derive(Debug)]
pub enum WatchLoopStep {
    /// Hand these file events to the handler, then receive again.
    Handle(Vec<FileEvent>),
    /// Report this watcher error, then receive again.
    Report(notify::Error),
    /// The event channel is closed: leave the loop.
    Stop,
}

/// The file-watch loop's decision on one message from the watcher: `None`
/// when the channel is closed, an event's kind and paths, or an error. Only
/// a closed channel ends the loop.
pub fn watch_loop_step(
    received: Option<Result<(notify::EventKind, Vec<PathBuf>), notify::Error>>,
) -> (step: WatchLoopStep)
    ensures
        match received {
            None => step is Stop,
            Some(Err(e)) => step == WatchLoopStep::Report(e),
            Some(Ok((kind, paths))) => match step {
                WatchLoopStep::Handle(events) => events@ == paths@.map_values(
                    |p: PathBuf| file_event_for(notify_event_class(kind), kind, p),
                ),
                _ => false,
            },
        },
{
    match received {
        None => WatchLoopStep::Stop,
        Some(Err(e)) => WatchLoopStep::Report(e),
        Some(Ok((kind, paths))) => WatchLoopStep::Handle(file_events(kind, paths)),
    }
}


/// A file event keeps what it was built from: its class is the class it was
/// built for and its path is the path it was built for. So an event of a
/// class is accepted exactly when some configured type has that class (and
/// no ignore pattern matches its path).
pub proof fn lemma_file_event_keeps_class_and_path(
    class: EventClass,
    kind: notify::EventKind,
    path: PathBuf,
)
    ensures
        class_of(file_event_for(class, kind, path)) == class,
        path_of(file_event_for(class, kind, path)) == path,
{
}

/// Events of different classes are told apart by the filter: a configuration
/// whose types cover only `wanted` rejects every event of another class.
pub proof fn lemma_filter_rejects_other_classes(
    config: FileWatcherConfig,
    wanted: EventClass,
    class: EventClass,
    kind: notify::EventKind,
    path: PathBuf,
)
    requires
        forall|i: int|
            0 <= i < config.event_types@.len() ==> notify_event_class(
                #[trigger] config.event_types@[i],
            ) == wanted,
        class != wanted,
    ensures
        !class_wanted(config.event_types@, class_of(file_event_for(class, kind, path))),
{
}

/// Glob matching from given positions, for a pattern without wildcards, is
/// equality of the remaining pattern and the remaining text.
proof fn lemma_literal_glob_from(pattern: Seq<char>, text: Seq<char>, i: int, j: int)
    requires
        forall|k: int| 0 <= k < pattern.len() ==> #[trigger] pattern[k] != '*' && pattern[k] != '?',
        0 <= i <= pattern.len(),
        0 <= j <= text.len(),
    ensures
        glob_from(pattern, text, i, j) == (pattern.subrange(i, pattern.len() as int) == text.subrange(
            j,
            text.len() as int,
        )),
    decreases pattern.len() - i,
{
    let ps = pattern.subrange(i, pattern.len() as int);
    let ts = text.subrange(j, text.len() as int);
    if i == pattern.len() {
        assert(ps =~= Seq::<char>::empty());
        if j < text.len() {
            assert(ts.len() > 0);
        } else {
            assert(ts =~= Seq::<char>::empty());
        }
    } else if j == text.len() {
        assert(ps.len() > 0 && ts.len() == 0);
    } else {
        lemma_literal_glob_from(pattern, text, i + 1, j + 1);
        let ps1 = pattern.subrange(i + 1, pattern.len() as int);
        let ts1 = text.subrange(j + 1, text.len() as int);
        assert(ps1 =~= ps.drop_first());
        assert(ts1 =~= ts.drop_first());
        if ps == ts {
            assert(ps[0] == ts[0]);
        }
        if pattern[i] == text[j] && ps1 == ts1 {
            assert forall|k: int| 0 <= k < ps.len() implies ps[k] == ts[k] by {
                if k > 0 {
                    assert(ps[k] == ps1[k - 1]);
                    assert(ts[k] == ts1[k - 1]);
                }
            }
            assert(ps =~= ts);
        }
    }
}

/// Characters other than `*` and `?` match only themselves: a pattern
/// without wildcards matches exactly the text equal to it.
pub proof fn lemma_literal_pattern_matches_only_itself(pattern: Seq<char>, text: Seq<char>)
    requires
        forall|k: int| 0 <= k < pattern.len() ==> #[trigger] pattern[k] != '*' && pattern[k] != '?',
    ensures
        glob_matches(pattern, text) == (pattern == text),
{
    lemma_literal_glob_from(pattern, text, 0, 0);
    assert(pattern.subrange(0, pattern.len() as int) =~= pattern);
    assert(text.subrange(0, text.len() as int) =~= text);
}

/// `?` matches exactly one character.
pub proof fn lemma_question_mark_matches_one_character(text: Seq<char>)
    ensures
        glob_matches(seq!['?'], text) == (text.len() == 1),
{
    let p = seq!['?'];
    if text.len() >= 1 {
        assert(glob_from(p, text, 0, 0) == glob_from(p, text, 1, 1));
    }
}

/// `*` followed by the rest of a pattern matches a text exactly when the
/// rest matches some suffix of it.
proof fn lemma_star_from(pattern: Seq<char>, text: Seq<char>, j: int)
    requires
        pattern.len() > 0,
        pattern[0] == '*',
        0 <= j <= text.len(),
    ensures
        glob_from(pattern, text, 0, j) == exists|k: int|
            j <= k <= text.len() && #[trigger] glob_from(pattern, text, 1, k),
    decreases text.len() - j,
{
    assert(glob_from(pattern, text, 0, j) == (glob_from(pattern, text, 1, j) || (j < text.len()
        && glob_from(pattern, text, 0, j + 1))));
    if j < text.len() {
        lemma_star_from(pattern, text, j + 1);
        if glob_from(pattern, text, 1, j) {
            assert(glob_from(pattern, text, 1, j));
        }
        if exists|k: int| j <= k <= text.len() && #[trigger] glob_from(pattern, text, 1, k) {
            let k = choose|k: int| j <= k <= text.len() && #[trigger] glob_from(pattern, text, 1, k);
            if k > j {
                assert(j + 1 <= k <= text.len() && glob_from(pattern, text, 1, k));
            }
        }
    } else {
        if exists|k: int| j <= k <= text.len() && #[trigger] glob_from(pattern, text, 1, k) {
            let k = choose|k: int| j <= k <= text.len() && #[trigger] glob_from(pattern, text, 1, k);
            assert(k == j);
        }
    }
}

/// A lone `*` matches every text.
pub proof fn lemma_star_matches_everything(text: Seq<char>)
    ensures
        glob_matches(seq!['*'], text),
{
    let p = seq!['*'];
    lemma_star_from(p, text, 0);
    assert(glob_from(p, text, 1, text.len() as int));
}

} // verus!
