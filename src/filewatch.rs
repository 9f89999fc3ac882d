//! Following one file: the read cursor, the poll cadence and the decisions
//! of the watch loop.
//!
//! A read cycle goes in two steps. The caller opens and stats the file and
//! hands the size to [`FileWatch::begin_read`], which answers where to read.
//! The caller reads those bytes and hands them to [`FileWatch::complete_read`],
//! which advances the cursor and gives back the batch of lines to send.

use vstd::prelude::*;
use crate::cadence::{backed_off, PollCadence, ACTIVE_WATCH_TIMEOUT_MS, STANDBY_WATCH_TIMEOUT_MS};
use crate::events::WatchEvent;
use crate::message::{Message, MessageView};
use crate::text::{all_valid_utf8, decode_all, decode_lines, split_lines, strings_view};

verus! {

/// What a read cycle asks of the caller once the file was stat-ed.
#[derive(Clone, Copy, Debug, PartialEq, Eq, Structural)]
pub enum ReadRequest {
    /// The file could not be opened or stat-ed: the cycle ends here.
    Failed,
    /// Nothing was appended since the last read.
    UpToDate,
    /// Read at most `len` bytes, starting at byte `offset`.
    ReadFrom { offset: u64, len: u64 },
}

/// Why the bytes of a read cycle were not taken.
#[derive(Clone, Copy, Debug, PartialEq, Eq, Structural)]
pub enum ReadError {
    /// A line is not valid UTF-8; the cycle is dropped and tried again later.
    InvalidUtf8,
}

/// The state of a file watcher, as the contracts see it.
pub struct TailState {
    pub path: Seq<char>,
    /// Size of the file at the last stat.
    pub file_size: int,
    /// Bytes of the file already consumed.
    pub read_offset: int,
    /// The file has been opened once.
    pub opened: bool,
    /// The watch loop is to end.
    pub stopping: bool,
    /// Current wait between two attempts, in milliseconds.
    pub timeout: int,
}

/// The cursor never passes the size, and the wait stays within its bounds.
pub open spec fn tail_wf(s: TailState) -> bool {
    &&& 0 <= s.read_offset <= s.file_size <= u64::MAX
    &&& ACTIVE_WATCH_TIMEOUT_MS as int <= s.timeout <= STANDBY_WATCH_TIMEOUT_MS as int
}

/// The cursor after a stat that gave `size`: reset when the file shrank below it.
pub open spec fn cursor_after_stat(s: TailState, size: u64) -> int {
    if s.read_offset > size as int {
        0
    } else {
        s.read_offset
    }
}

/// The state after the file was stat-ed; `None` when it could not be opened or
/// stat-ed. A file that cannot be opened before it ever was ends the watch.
pub open spec fn after_stat(s: TailState, size: Option<u64>) -> TailState {
    match size {
        None => TailState {
            file_size: 0,
            read_offset: 0,
            stopping: s.stopping || !s.opened,
            ..s
        },
        Some(n) => {
            let off = cursor_after_stat(s, n);
            TailState {
                file_size: n as int,
                read_offset: off,
                opened: true,
                timeout: if off == n as int {
                    backed_off(s.timeout)
                } else {
                    s.timeout
                },
                ..s
            }
        },
    }
}

/// What the caller is asked to read after a stat that gave `size`.
pub open spec fn stat_request(s: TailState, size: Option<u64>) -> ReadRequest {
    match size {
        None => ReadRequest::Failed,
        Some(n) => {
            let off = cursor_after_stat(s, n);
            if off == n as int {
                ReadRequest::UpToDate
            } else {
                ReadRequest::ReadFrom { offset: off as u64, len: (n as int - off) as u64 }
            }
        },
    }
}

/// The batch that the bytes `data` give, if they hold any line.
pub open spec fn batch_of(data: Seq<u8>) -> Option<MessageView> {
    if split_lines(data).len() == 0 {
        None
    } else {
        Some(MessageView::NewLines(decode_all(split_lines(data))))
    }
}

/// The state after the bytes `data` were read at the cursor. All of them are
/// consumed, a final line without terminator included; bytes that do not
/// decode leave the state as it was.
pub open spec fn after_read(s: TailState, data: Seq<u8>) -> TailState {
    if !all_valid_utf8(split_lines(data)) {
        s
    } else if split_lines(data).len() == 0 {
        TailState { read_offset: s.read_offset + data.len(), timeout: backed_off(s.timeout), ..s }
    } else {
        TailState {
            read_offset: s.read_offset + data.len(),
            timeout: ACTIVE_WATCH_TIMEOUT_MS as int,
            ..s
        }
    }
}

/// The notifications, and the time-outs, after which the file is read.
pub open spec fn event_triggers_read(e: WatchEvent) -> bool {
    match e {
        WatchEvent::CreatedFile | WatchEvent::CreatedOther | WatchEvent::ContentModified
        | WatchEvent::DataModified | WatchEvent::TimedOut => true,
        _ => false,
    }
}

/// The notifications that end the watch: the file is gone from its path.
pub open spec fn event_ends_watch(e: WatchEvent) -> bool {
    e == WatchEvent::Renamed || e == WatchEvent::Removed
}

/// Once a watcher has consumed a file to its end, bytes appended to it are
/// read in the next cycle, starting where the last one stopped; they make up
/// the one batch of that cycle, and the watcher is caught up again, so that a
/// cycle on the same size finds nothing more: no line is delivered twice.
pub proof fn lemma_appended_bytes_read_once(s: TailState, appended: Seq<u8>)
    requires
        tail_wf(s),
        s.read_offset == s.file_size,
        appended.len() > 0,
        s.file_size + appended.len() <= u64::MAX,
        all_valid_utf8(split_lines(appended)),
    ensures
        ({
            let size = (s.file_size + appended.len()) as u64;
            let s1 = after_stat(s, Some(size));
            let s2 = after_read(s1, appended);
            &&& stat_request(s, Some(size)) == ReadRequest::ReadFrom {
                offset: s.file_size as u64,
                len: appended.len() as u64,
            }
            &&& appended.len() <= s1.file_size - s1.read_offset
            &&& tail_wf(s2)
            &&& s2.read_offset == size as int
            &&& stat_request(s2, Some(size)) == ReadRequest::UpToDate
        }),
{
}

/// A file that shrank below the cursor is read again from its first byte, all
/// of it, and the cursor ends at its new end.
pub proof fn lemma_shrunk_file_reread(s: TailState, content: Seq<u8>)
    requires
        tail_wf(s),
        0 < content.len() < s.read_offset,
        all_valid_utf8(split_lines(content)),
    ensures
        ({
            let size = content.len() as u64;
            let s1 = after_stat(s, Some(size));
            &&& stat_request(s, Some(size)) == ReadRequest::ReadFrom { offset: 0, len: size }
            &&& s1.read_offset == 0
            &&& after_read(s1, content).read_offset == content.len()
        }),
{
}

/// Tails one file.
pub struct FileWatch {
    path: String,
    file_size: u64,
    read_offset: u64,
    opened: bool,
    should_join: bool,
    cadence: PollCadence,
}

impl View for FileWatch {
    type V = TailState;

    closed spec fn view(&self) -> TailState {
        TailState {
            path: self.path@,
            file_size: self.file_size as int,
            read_offset: self.read_offset as int,
            opened: self.opened,
            stopping: self.should_join,
            timeout: self.cadence@,
        }
    }
}

impl FileWatch {
    pub open spec fn wf(&self) -> bool {
        tail_wf(self@)
    }

    /// A watcher of the file at `path`, before its first read.
    pub fn new(path: &str) -> (r: FileWatch)
        ensures
            r.wf(),
            r@ == (TailState {
                path: path@,
                file_size: 0,
                read_offset: 0,
                opened: false,
                stopping: false,
                timeout: STANDBY_WATCH_TIMEOUT_MS as int,
            }),
    {
        FileWatch {
            path: path.to_owned(),
            file_size: 0,
            read_offset: 0,
            opened: false,
            should_join: false,
            cadence: PollCadence::new(),
        }
    }

    /// The path of the file followed.
    pub fn get_path(&self) -> (r: &String)
        ensures
            r@ == self@.path,
    {
        &self.path
    }

    /// How long to wait for a notification before reading anyway.
    pub fn watch_timeout_ms(&self) -> (r: u64)
        ensures
            r as int == self@.timeout,
    {
        self.cadence.timeout_ms()
    }

    /// The watch loop is to end.
    pub fn should_exit(&self) -> (r: bool)
        ensures
            r == self@.stopping,
    {
        self.should_join
    }

    /// First step of a read cycle: `size` is the size that the stat gave, or
    /// `None` when the file could not be opened or stat-ed.
    pub fn begin_read(&mut self, size: Option<u64>) -> (r: ReadRequest)
        requires
            old(self).wf(),
        ensures
            final(self).wf(),
            final(self)@ == after_stat(old(self)@, size),
            r == stat_request(old(self)@, size),
    {
        match size {
            None => {
                self.file_size = 0;
                self.read_offset = 0;
                if !self.opened {
                    self.should_join = true;
                }
                ReadRequest::Failed
            },
            Some(n) => {
                self.opened = true;
                self.file_size = n;
                if self.read_offset > n {
                    self.read_offset = 0;
                }
                if self.read_offset == n {
                    self.cadence.on_idle();
                    ReadRequest::UpToDate
                } else {
                    ReadRequest::ReadFrom { offset: self.read_offset, len: n - self.read_offset }
                }
            },
        }
    }

    /// The seek to the cursor failed: start over from the beginning next time.
    pub fn seek_failed(&mut self)
        requires
            old(self).wf(),
        ensures
            final(self).wf(),
            final(self)@ == (TailState { read_offset: 0, ..old(self)@ }),
    {
        self.read_offset = 0;
    }

    /// Second step of a read cycle: `data` holds the bytes read at the cursor.
    /// Gives back the batch of lines to send, if there is one.
    pub fn complete_read(&mut self, data: &[u8]) -> (r: Result<Option<Message>, ReadError>)
        requires
            old(self).wf(),
            data@.len() <= old(self)@.file_size - old(self)@.read_offset,
        ensures
            final(self).wf(),
            final(self)@ == after_read(old(self)@, data@),
            r is Err <==> !all_valid_utf8(split_lines(data@)),
            r matches Ok(m) ==> match m {
                Some(msg) => batch_of(data@) == Some(msg@),
                None => batch_of(data@) is None,
            },
    {
        match decode_lines(data) {
            None => Err(ReadError::InvalidUtf8),
            Some(lines) => {
                assert(strings_view(lines@).len() == lines@.len());
                assert(decode_all(split_lines(data@)).len() == split_lines(data@).len());
                self.read_offset = self.read_offset + data.len() as u64;
                if lines.len() == 0 {
                    self.cadence.on_idle();
                    Ok(None)
                } else {
                    self.cadence.on_activity();
                    Ok(Some(Message::NewLines(lines)))
                }
            },
        }
    }

    /// Takes a notification, or a time-out; says whether to run a read cycle now.
    pub fn process_event(&mut self, event: WatchEvent) -> (read: bool)
        requires
            old(self).wf(),
        ensures
            final(self).wf(),
            final(self)@ == (TailState {
                stopping: old(self)@.stopping || event_ends_watch(event),
                ..old(self)@
            }),
            read == event_triggers_read(event),
    {
        match event {
            WatchEvent::Renamed | WatchEvent::Removed => {
                self.should_join = true;
                false
            },
            WatchEvent::Other => false,
            _ => true,
        }
    }

    /// Takes the value polled from the stop channel; `true` ends the watch.
    /// Also used when the receiver of the batches is gone.
    pub fn on_stop_signal(&mut self, stop: bool)
        requires
            old(self).wf(),
        ensures
            final(self).wf(),
            final(self)@ == (TailState { stopping: old(self)@.stopping || stop, ..old(self)@ }),
    {
        if stop {
            self.should_join = true;
        }
    }
}

} // verus!
