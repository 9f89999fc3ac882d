//! Following a directory: which of its files is the current one.
//!
//! The caller lists the directory and hands the entries over; the watcher
//! picks the most recently modified eligible file and says when that choice
//! changed. It never reads the files themselves.

use vstd::prelude::*;
use crate::events::WatchEvent;

verus! {

/// How long a directory watcher waits for a notification before it scans anyway.
pub const DIR_POLL_INTERVAL_MS: u64 = 1000;

/// One entry of a directory listing.
pub struct DirEntry {
    /// Full path of the entry.
    pub path: String,
    /// Its last path component.
    pub name: String,
    /// It is a regular file.
    pub is_file: bool,
    /// Modification time, in nanoseconds from the Unix epoch; `None` when it
    /// could not be read.
    pub modified: Option<i128>,
}

/// A listing entry as the contracts see it.
pub struct EntryView {
    pub path: Seq<char>,
    pub name: Seq<char>,
    pub is_file: bool,
    pub modified: Option<int>,
}

impl View for DirEntry {
    type V = EntryView;

    open spec fn view(&self) -> EntryView {
        EntryView {
            path: self.path@,
            name: self.name@,
            is_file: self.is_file,
            modified: match self.modified {
                Some(t) => Some(t as int),
                None => None,
            },
        }
    }
}

pub open spec fn entries_view(v: Seq<DirEntry>) -> Seq<EntryView> {
    v.map_values(|e: DirEntry| e@)
}

/// A name that starts with a dot marks a hidden file.
pub open spec fn is_hidden(name: Seq<char>) -> bool {
    name.len() > 0 && name[0] == '.'
}

/// The file name of the part of path `p` before `end`, looking at the
/// component that starts at `i` (all of `p[i..end]` holds no `/`) and,
/// when that one is empty or `.`, at the ones before it. A `..` component
/// has no file name, nor has a path made only of separators and `.`.
pub open spec fn file_name_scan(p: Seq<char>, end: int, i: int) -> Option<Seq<char>>
    decreases i,
{
    if i > 0 && p[i - 1] != '/' {
        file_name_scan(p, end, i - 1)
    } else {
        let comp = p.subrange(i, end);
        if comp.len() == 0 || comp == seq!['.'] {
            if i <= 0 {
                None
            } else {
                file_name_scan(p, i - 1, i - 1)
            }
        } else if comp == seq!['.', '.'] {
            None
        } else {
            Some(comp)
        }
    }
}

/// The last component of path `p` that names something, as `Path::file_name`
/// finds it: separators at the end and `.` components are passed over, and a
/// path ending in `..` has none.
pub open spec fn file_name_of(p: Seq<char>) -> Option<Seq<char>> {
    file_name_scan(p, p.len() as int, p.len() as int)
}

/// The file that path `p` names is hidden.
pub open spec fn is_hidden_file(p: Seq<char>) -> bool {
    match file_name_of(p) {
        Some(f) => is_hidden(f),
        None => false,
    }
}

/// Paths that may be selected: they have a file name, and it is not hidden.
pub open spec fn name_allowed(p: Seq<char>) -> bool {
    match file_name_of(p) {
        Some(f) => !is_hidden(f),
        None => false,
    }
}

/// Entries that take part in the selection: regular files with an allowed
/// name and a known modification time.
pub open spec fn eligible(e: EntryView) -> bool {
    e.is_file && name_allowed(e.name) && e.modified is Some
}

/// The selected entry: the eligible one modified last; among equal times the
/// first in listing order.
pub open spec fn latest(es: Seq<EntryView>) -> Option<EntryView>
    decreases es.len(),
{
    if es.len() == 0 {
        None
    } else {
        let rest = latest(es.drop_last());
        let e = es.last();
        if eligible(e) && match rest {
            None => true,
            Some(r) => r.modified->0 < e.modified->0,
        } {
            Some(e)
        } else {
            rest
        }
    }
}

/// The state of a directory watcher, as the contracts see it.
pub struct DirState {
    pub path: Seq<char>,
    /// Name of the file reported last; empty before the first report.
    pub last_reported: Seq<char>,
    /// The watch loop is to end.
    pub stopping: bool,
}

/// The state after a scan that listed `es`.
pub open spec fn after_rescan(s: DirState, es: Seq<EntryView>) -> DirState {
    match latest(es) {
        Some(e) => DirState { last_reported: e.name, ..s },
        None => s,
    }
}

/// The path reported after a scan that listed `es`: the selected file, when
/// it differs from the one reported last.
pub open spec fn rescan_report(s: DirState, es: Seq<EntryView>) -> Option<Seq<char>> {
    match latest(es) {
        Some(e) => if e.name == s.last_reported {
            None
        } else {
            Some(e.path)
        },
        None => None,
    }
}

/// The notifications, and the time-outs, after which the directory is scanned:
/// a file was created, or the data of one changed.
pub open spec fn event_triggers_scan(e: WatchEvent) -> bool {
    e == WatchEvent::CreatedFile || e == WatchEvent::ContentModified || e == WatchEvent::DataModified
        || e == WatchEvent::TimedOut
}

/// The selected entry is eligible and none is newer; with none eligible,
/// nothing is selected.
pub proof fn lemma_latest_is_newest(es: Seq<EntryView>)
    ensures
        latest(es) is None <==> forall|i: int| 0 <= i < es.len() ==> !eligible(#[trigger] es[i]),
        latest(es) matches Some(e) ==> {
            &&& eligible(e)
            &&& exists|k: int| 0 <= k < es.len() && es[k] == e
            &&& forall|i: int|
                0 <= i < es.len() && eligible(#[trigger] es[i]) ==> es[i].modified->0
                    <= e.modified->0
        },
    decreases es.len(),
{
    if es.len() > 0 {
        let init = es.drop_last();
        let n = es.len() - 1;
        let last = es.last();
        lemma_latest_is_newest(init);
        assert forall|i: int| 0 <= i < init.len() implies #[trigger] init[i] == es[i] by {}
        assert(es[n] == last);
        if latest(es) is None {
            assert forall|i: int| 0 <= i < es.len() implies !eligible(#[trigger] es[i]) by {
                if i < n {
                    assert(init[i] == es[i]);
                }
            }
        }
        if let Some(e) = latest(es) {
            if e == last {
                assert forall|i: int|
                    0 <= i < es.len() && eligible(#[trigger] es[i]) implies es[i].modified->0
                    <= e.modified->0 by {
                    if i < n {
                        assert(init[i] == es[i]);
                    }
                }
            } else {
                let k = choose|k: int| 0 <= k < init.len() && init[k] == e;
                assert(es[k] == e);
                assert forall|i: int|
                    0 <= i < es.len() && eligible(#[trigger] es[i]) implies es[i].modified->0
                    <= e.modified->0 by {
                    if i < n {
                        assert(init[i] == es[i]);
                    }
                }
            }
        }
    }
}

/// Leaving out entries that could never be selected leaves the selection as it is.
proof fn lemma_latest_filter(es: Seq<EntryView>, p: spec_fn(EntryView) -> bool)
    requires
        forall|e: EntryView| #[trigger] eligible(e) ==> p(e),
    ensures
        latest(es.filter(p)) == latest(es),
    decreases es.len(),
{
    reveal(Seq::filter);
    if es.len() > 0 {
        let init = es.drop_last();
        lemma_latest_filter(init, p);
        let f = es.filter(p);
        if p(es.last()) {
            assert(f == init.filter(p).push(es.last()));
            assert(f.drop_last() =~= init.filter(p));
            assert(f.last() == es.last());
        } else {
            assert(f == init.filter(p));
            assert(!eligible(es.last()));
        }
    } else {
        assert(es.filter(p).len() == 0);
    }
}

/// A hidden file is never selected, and hidden files never change what a scan
/// selects or reports, however recently they were modified.
pub proof fn lemma_hidden_files_ignored(s: DirState, es: Seq<EntryView>)
    ensures
        latest(es) matches Some(e) ==> !is_hidden_file(e.name),
        ({
            let visible = es.filter(|e: EntryView| !is_hidden_file(e.name));
            &&& latest(es) == latest(visible)
            &&& after_rescan(s, es) == after_rescan(s, visible)
            &&& rescan_report(s, es) == rescan_report(s, visible)
        }),
{
    lemma_latest_is_newest(es);
    lemma_latest_filter(es, |e: EntryView| !is_hidden_file(e.name));
}

/// A file modified after every eligible entry of a listing takes over the
/// selection, and a scan reports it unless it was the one reported last.
pub proof fn lemma_newer_file_selected(s: DirState, es: Seq<EntryView>, f: EntryView)
    requires
        eligible(f),
        forall|i: int|
            0 <= i < es.len() && eligible(#[trigger] es[i]) ==> es[i].modified->0 < f.modified->0,
    ensures
        latest(es.push(f)) == Some(f),
        after_rescan(s, es.push(f)).last_reported == f.name,
        f.name != s.last_reported ==> rescan_report(s, es.push(f)) == Some(f.path),
{
    lemma_latest_is_newest(es);
    assert(es.push(f).drop_last() =~= es);
}

/// Tracks the current file of one directory.
pub struct DirWatch {
    path: String,
    last_reported_file: String,
    should_join: bool,
}

impl View for DirWatch {
    type V = DirState;

    closed spec fn view(&self) -> DirState {
        DirState {
            path: self.path@,
            last_reported: self.last_reported_file@,
            stopping: self.should_join,
        }
    }
}

impl DirWatch {
    /// A watcher of the directory at `path`, before its first scan.
    pub fn new(path: &str) -> (r: DirWatch)
        ensures
            r@ == (DirState { path: path@, last_reported: Seq::empty(), stopping: false }),
    {
        DirWatch { path: path.to_owned(), last_reported_file: String::new(), should_join: false }
    }

    /// The path of the directory followed.
    pub fn get_path(&self) -> (r: &String)
        ensures
            r@ == self@.path,
    {
        &self.path
    }

    /// The watch loop is to end.
    pub fn should_exit(&self) -> (r: bool)
        ensures
            r == self@.stopping,
    {
        self.should_join
    }

    /// A path that may be selected: its file name, the last component that
    /// names something, exists and does not start with a dot.
    pub fn filename_allowed(name: &str) -> (r: bool)
        ensures
            r == name_allowed(name@),
            r == match file_name_of(name@) {
                Some(f) => !is_hidden(f),
                None => false,
            },
    {
        let n = name.unicode_len();
        let mut end: usize = n;
        let mut i: usize = n;
        loop
            invariant
                n == name@.len(),
                i <= end <= n,
                file_name_of(name@) == file_name_scan(name@, end as int, i as int),
            decreases i,
        {
            if i > 0 && name.get_char(i - 1) != '/' {
                i = i - 1;
            } else {
                let len = end - i;
                let ghost comp = name@.subrange(i as int, end as int);
                if len == 0 || (len == 1 && name.get_char(i) == '.') {
                    proof {
                        if len == 1 {
                            assert(comp =~= seq!['.']);
                        }
                    }
                    if i == 0 {
                        return false;
                    }
                    end = i - 1;
                    i = i - 1;
                } else if len == 2 && name.get_char(i) == '.' && name.get_char(i + 1) == '.' {
                    assert(comp =~= seq!['.', '.']);
                    return false;
                } else {
                    proof {
                        if len == 1 {
                            assert(comp != seq!['.']) by {
                                assert(comp[0] == name@[i as int]);
                            }
                        }
                        if len == 2 {
                            assert(comp != seq!['.', '.']) by {
                                assert(comp[0] == name@[i as int]);
                                assert(comp[1] == name@[i + 1]);
                            }
                        }
                        assert(comp[0] == name@[i as int]);
                    }
                    return name.get_char(i) != '.';
                }
            }
        }
    }

    /// Index of the selected entry of a listing: the eligible entry modified
    /// last, the first of them on equal times.
    pub fn pick_latest_file(entries: &Vec<DirEntry>) -> (r: Option<usize>)
        ensures
            match r {
                None => latest(entries_view(entries@)) is None,
                Some(i) => i < entries@.len() && latest(entries_view(entries@)) == Some(entries@[i as int]@),
            },
    {
        let ghost es = entries_view(entries@);
        let mut best: Option<usize> = None;
        let mut best_time: i128 = 0;
        let mut i: usize = 0;
        while i < entries.len()
            invariant
                i <= entries@.len(),
                es == entries_view(entries@),
                match best {
                    None => latest(es.subrange(0, i as int)) is None,
                    Some(b) => b < i && entries@[b as int].modified == Some(best_time)
                        && latest(es.subrange(0, i as int)) == Some(entries@[b as int]@),
                },
            decreases entries@.len() - i,
        {
            assert(es.subrange(0, i + 1).drop_last() =~= es.subrange(0, i as int));
            assert(es.subrange(0, i + 1).last() == entries@[i as int]@);
            let e = &entries[i];
            if e.is_file && Self::filename_allowed(e.name.as_str()) {
                if let Some(t) = e.modified {
                    let newer = match best {
                        None => true,
                        Some(_) => best_time < t,
                    };
                    if newer {
                        best = Some(i);
                        best_time = t;
                    }
                }
            }
            i = i + 1;
        }
        assert(es.subrange(0, entries@.len() as int) =~= es);
        best
    }

    /// Reports `entry` when it is an eligible file other than the one reported
    /// last, and remembers it.
    fn process_file(&mut self, entry: &DirEntry) -> (r: Option<String>)
        ensures
            final(self)@ == (if entry.is_file && name_allowed(entry.name@) {
                DirState { last_reported: entry.name@, ..old(self)@ }
            } else {
                old(self)@
            }),
            r == (if entry.is_file && name_allowed(entry.name@) && entry.name@ != old(self)@.last_reported {
                Some(entry.path)
            } else {
                None::<String>
            }),
    {
        if !entry.is_file || !Self::filename_allowed(entry.name.as_str()) {
            return None;
        }
        if self.last_reported_file == entry.name {
            None
        } else {
            self.last_reported_file = entry.name.clone();
            Some(entry.path.clone())
        }
    }

    /// Scans a listing of the directory: gives the path of the selected file
    /// when the selection changed since the last report.
    pub fn rescan(&mut self, entries: &Vec<DirEntry>) -> (r: Option<String>)
        ensures
            final(self)@ == after_rescan(old(self)@, entries_view(entries@)),
            match r {
                Some(p) => rescan_report(old(self)@, entries_view(entries@)) == Some(p@),
                None => rescan_report(old(self)@, entries_view(entries@)) is None,
            },
    {
        proof {
            lemma_latest_is_newest(entries_view(entries@));
        }
        match Self::pick_latest_file(entries) {
            Some(i) => self.process_file(&entries[i]),
            None => None,
        }
    }

    /// Takes a notification, or a time-out; says whether to scan now.
    pub fn process_event(&self, event: WatchEvent) -> (scan: bool)
        ensures
            scan == event_triggers_scan(event),
    {
        match event {
            WatchEvent::CreatedFile | WatchEvent::ContentModified | WatchEvent::DataModified
            | WatchEvent::TimedOut => true,
            _ => false,
        }
    }

    /// Takes the value polled from the stop channel; `true` ends the watch.
    /// Also used when the receiver of the reports is gone.
    pub fn on_stop_signal(&mut self, stop: bool)
        ensures
            final(self)@ == (DirState { stopping: old(self)@.stopping || stop, ..old(self)@ }),
    {
        if stop {
            self.should_join = true;
        }
    }
}

} // verus!
